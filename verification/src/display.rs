//! Display text of types and generic lists.
use crate::ir::Body;
use crate::module::{Function, Module, TypeAlias};
use crate::symbol::Symbol;
use crate::text::{dec_nat, push_dec, push_str};
use crate::types::{
    fields_view, lemma_fields_view_take, lemma_types_view_take, opt_str_view, types_view,
    IntegerSize, Type, TypeModel,
};
use vstd::prelude::*;

verus! {

broadcast use {vstd::std_specs::vec::group_vec_axioms, vstd::seq::group_seq_axioms};

/// Text of an integer size: its number of bits, or `size`.
pub open spec fn size_text(s: IntegerSize) -> Seq<char> {
    match s {
        IntegerSize::Bits(bits) => dec_nat(bits as nat),
        IntegerSize::Size => "size"@,
    }
}

/// The separator written before the item at `idx` of a comma-separated list.
pub open spec fn comma_before(idx: int) -> Seq<char> {
    if idx > 0 {
        ", "@
    } else {
        Seq::empty()
    }
}

/// The types, each written plainly or in the alternate form, separated by `, `.
pub open spec fn list_text(s: Seq<TypeModel>, alt: bool) -> Seq<char>
    decreases s,
{
    if s.len() == 0 {
        Seq::empty()
    } else {
        list_text(s.drop_last(), alt) + comma_before(s.len() - 1) + type_text(s.last(), alt)
    }
}

/// The fields of a struct, each with its name (or, in the alternate form, `_` and its
/// position) and its type. The plain form separates them by `, `; the alternate form
/// indents each by two spaces and ends it with `,` and a line break.
pub open spec fn fields_text(s: Seq<(Option<Seq<char>>, TypeModel)>, alt: bool) -> Seq<char>
    decreases s,
{
    if s.len() == 0 {
        Seq::empty()
    } else {
        let idx = s.len() - 1;
        let lead = if alt {
            "  "@
        } else {
            comma_before(idx)
        };
        let label = match s.last().0 {
            Some(name) => name + ": "@,
            None => if alt {
                "_"@ + dec_nat(idx as nat) + ": "@
            } else {
                Seq::empty()
            },
        };
        let tail = if alt {
            ",\n"@
        } else {
            Seq::empty()
        };
        fields_text(s.drop_last(), alt) + lead + label + type_text(s.last().1, alt) + tail
    }
}

/// The display text of a type; `alt` selects the alternate form, which lays struct
/// fields out one per line. The alternate form reaches into pointers, function
/// pointers and struct fields, not into generic arguments or array elements.
pub open spec fn type_text(t: TypeModel, alt: bool) -> Seq<char>
    decreases t,
{
    match t {
        TypeModel::Integer(size) => "i"@ + size_text(size),
        TypeModel::Unsigned(size) => "u"@ + size_text(size),
        TypeModel::Float(bits) => "f"@ + dec_nat(bits as nat),
        TypeModel::Bool => "bool"@,
        TypeModel::Char(wide) => if wide {
            "uchar"@
        } else {
            "achar"@
        },
        TypeModel::Symbol(name, generics) => name + if generics.len() == 0 {
            Seq::empty()
        } else {
            "<"@ + list_text(generics, false) + ">"@
        },
        TypeModel::Array(ty, len) => type_text(*ty, false) + "["@ + dec_nat(len as nat) + "]"@,
        TypeModel::Struct(fields) => "{"@ + (if alt {
            "\n"@
        } else {
            " "@
        }) + fields_text(fields, alt) + (if alt {
            "}"@
        } else {
            " }"@
        }),
        TypeModel::Ptr(ty, mutable) => (if mutable {
            "*mut "@
        } else {
            "*const "@
        }) + type_text(*ty, alt),
        TypeModel::FnPtr(params, return_type) => "("@ + list_text(params, alt) + match return_type {
            Some(r) => ") -> "@ + type_text(*r, alt),
            None => ") -> void"@,
        },
        TypeModel::Param(name) => "#"@ + name,
        TypeModel::Error => "<error>"@,
    }
}

/// Generic arguments as written after a name: nothing when there are none, else the
/// types in angle brackets.
pub open spec fn generic_args_text(s: Seq<TypeModel>) -> Seq<char> {
    if s.len() == 0 {
        Seq::empty()
    } else {
        "<"@ + list_text(s, false) + ">"@
    }
}

/// The names, separated by `, `.
pub open spec fn names_text(s: Seq<Seq<char>>) -> Seq<char>
    decreases s,
{
    if s.len() == 0 {
        Seq::empty()
    } else {
        names_text(s.drop_last()) + comma_before(s.len() - 1) + s.last()
    }
}

/// Generic parameters as written after a name: nothing when there are none, else the
/// names in angle brackets.
pub open spec fn generic_params_text(s: Seq<Seq<char>>) -> Seq<char> {
    if s.len() == 0 {
        Seq::empty()
    } else {
        "<"@ + names_text(s) + ">"@
    }
}

/// Append the text of an integer size.
pub fn push_size(out: &mut String, s: IntegerSize)
    ensures
        final(out)@ == old(out)@ + size_text(s),
{
    match s {
        IntegerSize::Bits(bits) => push_dec(out, bits as u64),
        IntegerSize::Size => push_str(out, "size"),
    }
}

impl IntegerSize {
    /// Display text: the number of bits, or `size`.
    pub fn text(&self) -> (r: String)
        ensures
            r@ == size_text(*self),
    {
        let mut out = String::new();
        push_size(&mut out, *self);
        out
    }
}

proof fn lemma_list_text_push(s: Seq<TypeModel>, t: TypeModel, alt: bool)
    ensures
        list_text(s.push(t), alt) == list_text(s, alt) + comma_before(s.len() as int) + type_text(
            t,
            alt,
        ),
{
    assert(s.push(t).drop_last() =~= s);
}

/// Append the types, separated by `, `.
pub fn push_types(out: &mut String, s: &Vec<Type>, alt: bool)
    ensures
        final(out)@ == old(out)@ + list_text(types_view(s@), alt),
    decreases s, 0nat,
{
    let mut i: usize = 0;
    assert(s@.take(0) =~= Seq::<Type>::empty());
    assert(old(out)@ + Seq::<char>::empty() =~= old(out)@);
    while i < s.len()
        invariant
            i <= s.len(),
            out@ == old(out)@ + list_text(types_view(s@.take(i as int)), alt),
        decreases s.len() - i,
    {
        proof {
            lemma_types_view_take(s@, i as int);
            crate::types::lemma_types_view_len(s@.take(i as int));
            lemma_list_text_push(types_view(s@.take(i as int)), s@[i as int]@, alt);
        }
        if i > 0 {
            push_str(out, ", ");
        }
        push_type(out, &s[i], alt);
        assert(out@ =~= old(out)@ + list_text(types_view(s@.take(i + 1)), alt));
        i += 1;
    }
    assert(s@.take(s.len() as int) =~= s@);
}

proof fn lemma_fields_text_push(
    s: Seq<(Option<Seq<char>>, TypeModel)>,
    f: (Option<Seq<char>>, TypeModel),
    alt: bool,
)
    ensures
        fields_text(s.push(f), alt) == fields_text(s, alt) + (if alt {
            "  "@
        } else {
            comma_before(s.len() as int)
        }) + (match f.0 {
            Some(name) => name + ": "@,
            None => if alt {
                "_"@ + dec_nat(s.len()) + ": "@
            } else {
                Seq::empty()
            },
        }) + type_text(f.1, alt) + (if alt {
            ",\n"@
        } else {
            Seq::empty()
        }),
{
    assert(s.push(f).drop_last() =~= s);
}

fn push_fields(out: &mut String, s: &Vec<(Option<String>, Type)>, alt: bool)
    ensures
        final(out)@ == old(out)@ + fields_text(fields_view(s@), alt),
    decreases s, 0nat,
{
    let mut i: usize = 0;
    assert(s@.take(0) =~= Seq::<(Option<String>, Type)>::empty());
    assert(old(out)@ + Seq::<char>::empty() =~= old(out)@);
    while i < s.len()
        invariant
            i <= s.len(),
            out@ == old(out)@ + fields_text(fields_view(s@.take(i as int)), alt),
        decreases s.len() - i,
    {
        proof {
            lemma_fields_view_take(s@, i as int);
            crate::types::lemma_fields_view_len(s@.take(i as int));
            lemma_fields_text_push(
                fields_view(s@.take(i as int)),
                (opt_str_view(s@[i as int].0), s@[i as int].1@),
                alt,
            );
        }
        let ghost before = out@;
        if alt {
            push_str(out, "  ");
        } else if i > 0 {
            push_str(out, ", ");
        }
        match &s[i].0 {
            Some(name) => {
                push_str(out, name.as_str());
                push_str(out, ": ");
            },
            None => {
                if alt {
                    push_str(out, "_");
                    push_dec(out, i as u64);
                    push_str(out, ": ");
                }
            },
        }
        push_type(out, &s[i].1, alt);
        if alt {
            push_str(out, ",\n");
        }
        assert(out@ =~= old(out)@ + fields_text(fields_view(s@.take(i + 1)), alt));
        i += 1;
    }
    assert(s@.take(s.len() as int) =~= s@);
}

/// Append the display text of `t`, in the alternate form when `alt` holds.
pub fn push_type(out: &mut String, t: &Type, alt: bool)
    ensures
        final(out)@ == old(out)@ + type_text(t@, alt),
    decreases t, 1nat,
{
    let ghost start = out@;
    match t {
        Type::Integer(size) => {
            push_str(out, "i");
            push_size(out, *size);
        },
        Type::Unsigned(size) => {
            push_str(out, "u");
            push_size(out, *size);
        },
        Type::Float(bits) => {
            push_str(out, "f");
            push_dec(out, *bits as u64);
        },
        Type::Bool => push_str(out, "bool"),
        Type::Char(wide) => {
            if *wide {
                push_str(out, "uchar");
            } else {
                push_str(out, "achar");
            }
        },
        Type::Symbol(name, generics) => {
            push_str(out, name.as_str());
            push_generic_args(out, generics);
        },
        Type::Array(ty, len) => {
            push_type(out, ty, false);
            push_str(out, "[");
            push_dec(out, *len as u64);
            push_str(out, "]");
        },
        Type::Struct { fields } => {
            push_str(out, "{");
            if alt {
                push_str(out, "\n");
            } else {
                push_str(out, " ");
            }
            push_fields(out, fields, alt);
            if alt {
                push_str(out, "}");
            } else {
                push_str(out, " }");
            }
        },
        Type::Ptr(ty, mutable) => {
            if *mutable {
                push_str(out, "*mut ");
            } else {
                push_str(out, "*const ");
            }
            push_type(out, ty, alt);
        },
        Type::FnPtr { params, return_type } => {
            push_str(out, "(");
            push_types(out, params, alt);
            match return_type {
                Some(r) => {
                    push_str(out, ") -> ");
                    push_type(out, r, alt);
                },
                None => push_str(out, ") -> void"),
            }
        },
        Type::Param(name) => {
            push_str(out, "#");
            push_str(out, name.as_str());
        },
        Type::Error => push_str(out, "<error>"),
    }
    assert(out@ =~= start + type_text(t@, alt));
}

/// Append generic arguments: nothing when there are none, else the types in angle
/// brackets.
pub fn push_generic_args(out: &mut String, generics: &Vec<Type>)
    ensures
        final(out)@ == old(out)@ + generic_args_text(types_view(generics@)),
    decreases generics, 1nat,
{
    proof {
        crate::types::lemma_types_view_len(generics@);
    }
    if generics.len() == 0 {
        assert(old(out)@ + Seq::<char>::empty() =~= old(out)@);
    } else {
        push_str(out, "<");
        push_types(out, generics, false);
        push_str(out, ">");
        assert(out@ =~= old(out)@ + generic_args_text(types_view(generics@)));
    }
}

impl Type {
    /// Display text of the type.
    pub fn text(&self) -> (r: String)
        ensures
            r@ == type_text(self@, false),
    {
        let mut out = String::new();
        push_type(&mut out, self, false);
        assert(out@ =~= type_text(self@, false));
        out
    }

    /// Display text of the type in the alternate form, struct fields one per line.
    pub fn pretty_text(&self) -> (r: String)
        ensures
            r@ == type_text(self@, true),
    {
        let mut out = String::new();
        push_type(&mut out, self, true);
        assert(out@ =~= type_text(self@, true));
        out
    }
}

/// The names of the symbols.
pub open spec fn names_of(s: Seq<Symbol>) -> Seq<Seq<char>> {
    s.map_values(|x: Symbol| x@)
}

/// Append generic parameters: nothing when there are none, else the names in angle
/// brackets.
pub fn push_generic_params(out: &mut String, generics: &[Symbol])
    ensures
        final(out)@ == old(out)@ + generic_params_text(names_of(generics@)),
{
    if generics.len() == 0 {
        assert(old(out)@ + Seq::<char>::empty() =~= old(out)@);
        return;
    }
    push_str(out, "<");
    let mut i: usize = 0;
    while i < generics.len()
        invariant
            i <= generics@.len(),
            generics@.len() > 0,
            out@ == old(out)@ + "<"@ + names_text(names_of(generics@.take(i as int))),
        decreases generics@.len() - i,
    {
        proof {
            let prev = names_of(generics@.take(i as int));
            let next = names_of(generics@.take(i + 1));
            assert(next.drop_last() =~= prev);
            assert(next.last() == generics@[i as int]@);
        }
        if i > 0 {
            push_str(out, ", ");
        }
        push_str(out, generics[i].as_str());
        assert(out@ =~= old(out)@ + "<"@ + names_text(names_of(generics@.take(i + 1))));
        i += 1;
    }
    assert(generics@.take(generics@.len() as int) =~= generics@);
    push_str(out, ">");
    assert(out@ =~= old(out)@ + generic_params_text(names_of(generics@)));
}

/// Format generic parameters: empty when there are none, else `<A, B>`.
pub fn fmt_generic_params(generics: &[Symbol]) -> (r: String)
    ensures
        r@ == generic_params_text(names_of(generics@)),
{
    let mut out = String::new();
    push_generic_params(&mut out, generics);
    assert(out@ =~= generic_params_text(names_of(generics@)));
    out
}

/// Format generic arguments: empty when there are none, else the types in angle brackets.
pub fn fmt_generic_args(generics: &Vec<Type>) -> (r: String)
    ensures
        r@ == generic_args_text(types_view(generics@)),
{
    let mut out = String::new();
    push_generic_args(&mut out, generics);
    assert(out@ =~= generic_args_text(types_view(generics@)));
    out
}


/// The parameters of a function, each with its name (or `_` and its position) and its
/// type, separated by `, `.
pub open spec fn params_text(s: Seq<(Option<String>, Type)>) -> Seq<char>
    decreases s.len(),
{
    if s.len() == 0 {
        Seq::empty()
    } else {
        let idx = s.len() - 1;
        params_text(s.drop_last()) + comma_before(idx) + match s.last().0 {
            Some(name) => name@ + ": "@,
            None => "_"@ + dec_nat(idx as nat) + ": "@,
        } + type_text(s.last().1@, false)
    }
}

/// Display text of a function's signature after its name: generic parameters,
/// parameters and return type (`void` when there is none).
pub open spec fn function_text(f: Function) -> Seq<char> {
    generic_params_text(names_of(f.generics@)) + "("@ + params_text(f.params@) + match f.return_type {
        Some(t) => ") -> "@ + type_text(t@, false),
        None => ") -> void"@,
    }
}

/// The type declarations, one per line: `type`, the name, its generic parameters and
/// the aliased type.
pub open spec fn type_decls_text(s: Seq<(Symbol, TypeAlias)>) -> Seq<char>
    decreases s.len(),
{
    if s.len() == 0 {
        Seq::empty()
    } else {
        type_decls_text(s.drop_last()) + "type "@ + s.last().0@ + generic_params_text(
            names_of(s.last().1.generics@),
        ) + " = "@ + type_text(s.last().1.type_@, false) + ";"@ + "\n"@
    }
}

/// Every function body in the list can be displayed in `module` and has few enough
/// variables for their ids.
pub open spec fn bodies_displayable(
    s: Seq<(Symbol, Function)>,
    module: &Module,
    table: Seq<(u32, String)>,
) -> bool {
    forall|i: int|
        0 <= i < s.len() ==> match #[trigger] s[i].1.body {
            Some(b) => b.body_text(module, table) is Some && b.variables@.len() <= u32::MAX as nat
                + 1,
            None => true,
        }
}

/// The function declarations: `fn`, the name and the signature, then the body and an
/// empty line, or `;` where there is no body.
pub open spec fn function_decls_text(
    s: Seq<(Symbol, Function)>,
    module: &Module,
    table: Seq<(u32, String)>,
) -> Seq<char>
    decreases s.len(),
{
    if s.len() == 0 {
        Seq::empty()
    } else {
        function_decls_text(s.drop_last(), module, table) + "fn "@ + s.last().0@ + function_text(
            s.last().1,
        ) + match s.last().1.body {
            Some(b) => " "@ + b.body_text(module, table).unwrap() + "\n"@ + "\n"@,
            None => ";"@ + "\n"@,
        }
    }
}

/// Display text of a module: its type declarations, an empty line, then its functions.
pub open spec fn module_text(module: &Module, table: Seq<(u32, String)>) -> Seq<char> {
    type_decls_text(module.type_list()) + "\n"@ + function_decls_text(
        module.function_list(),
        module,
        table,
    )
}

fn push_params(out: &mut String, s: &Vec<(Option<String>, Type)>)
    ensures
        final(out)@ == old(out)@ + params_text(s@),
{
    let mut i: usize = 0;
    assert(s@.take(0) =~= Seq::<(Option<String>, Type)>::empty());
    assert(old(out)@ + Seq::<char>::empty() =~= old(out)@);
    while i < s.len()
        invariant
            i <= s.len(),
            out@ == old(out)@ + params_text(s@.take(i as int)),
        decreases s.len() - i,
    {
        assert(s@.take(i + 1).drop_last() =~= s@.take(i as int));
        if i > 0 {
            push_str(out, ", ");
        }
        match &s[i].0 {
            Some(name) => push_str(out, name.as_str()),
            None => {
                push_str(out, "_");
                push_dec(out, i as u64);
            },
        }
        push_str(out, ": ");
        push_type(out, &s[i].1, false);
        assert(out@ =~= old(out)@ + params_text(s@.take(i + 1)));
        i += 1;
    }
    assert(s@.take(s.len() as int) =~= s@);
}

/// Append the signature text of a function after its name.
pub fn push_function(out: &mut String, f: &Function)
    ensures
        final(out)@ == old(out)@ + function_text(*f),
{
    push_generic_params(out, f.generics.as_slice());
    push_str(out, "(");
    push_params(out, &f.params);
    match &f.return_type {
        Some(t) => {
            push_str(out, ") -> ");
            push_type(out, t, false);
        },
        None => push_str(out, ") -> void"),
    }
    assert(out@ =~= old(out)@ + function_text(*f));
}

impl Function {
    /// Display text of the signature: generic parameters, parameters and return type.
    pub fn text(&self) -> (r: String)
        ensures
            r@ == function_text(*self),
    {
        let mut out = String::new();
        push_function(&mut out, self);
        assert(out@ =~= function_text(*self));
        out
    }
}

fn push_function_decl(
    out: &mut String,
    name: &Symbol,
    func: &Function,
    module: &Module,
    floats: &Vec<(u32, String)>,
)
    requires
        match func.body {
            Some(b) => b.body_text(module, floats@) is Some && b.variables@.len() <= u32::MAX as nat
                + 1,
            None => true,
        },
    ensures
        final(out)@ == old(out)@ + "fn "@ + name@ + function_text(*func) + match func.body {
            Some(b) => " "@ + b.body_text(module, floats@).unwrap() + "\n"@ + "\n"@,
            None => ";"@ + "\n"@,
        },
{
    push_str(out, "fn ");
    push_str(out, name.as_str());
    push_function(out, func);
    match &func.body {
        Some(body) => {
            push_str(out, " ");
            let t = body.text(module, floats);
            push_str(out, t.as_str());
            push_str(out, "\n");
            push_str(out, "\n");
        },
        None => {
            push_str(out, ";");
            push_str(out, "\n");
        },
    }
    assert(out@ =~= old(out)@ + "fn "@ + name@ + function_text(*func) + match func.body {
        Some(b) => " "@ + b.body_text(module, floats@).unwrap() + "\n"@ + "\n"@,
        None => ";"@ + "\n"@,
    });
}

impl Module {
    /// Display text of the module, declarations in the order they were first made;
    /// float constants in bodies read as the table's text for their bits.
    pub fn text(&self, floats: &Vec<(u32, String)>) -> (r: String)
        requires
            bodies_displayable(self.function_list(), self, floats@),
        ensures
            r@ == module_text(self, floats@),
    {
        let mut out = String::new();
        let types = self.type_entries();
        let mut i: usize = 0;
        assert(types@.take(0) =~= Seq::<(Symbol, TypeAlias)>::empty());
        while i < types.len()
            invariant
                i <= types@.len(),
                types@ == self.type_list(),
                out@ == type_decls_text(types@.take(i as int)),
            decreases types@.len() - i,
        {
            assert(types@.take(i + 1).drop_last() =~= types@.take(i as int));
            let (name, alias) = &types[i];
            push_str(&mut out, "type ");
            push_str(&mut out, name.as_str());
            push_generic_params(&mut out, alias.generics.as_slice());
            push_str(&mut out, " = ");
            push_type(&mut out, &alias.type_, false);
            push_str(&mut out, ";");
            push_str(&mut out, "\n");
            assert(out@ =~= type_decls_text(types@.take(i + 1)));
            i += 1;
        }
        assert(types@.take(types@.len() as int) =~= types@);
        push_str(&mut out, "\n");
        let ghost head = out@;
        let functions = self.function_entries();
        let mut j: usize = 0;
        assert(functions@.take(0) =~= Seq::<(Symbol, Function)>::empty());
        assert(head + Seq::<char>::empty() =~= head);
        while j < functions.len()
            invariant
                j <= functions@.len(),
                functions@ == self.function_list(),
                bodies_displayable(self.function_list(), self, floats@),
                out@ == head + function_decls_text(functions@.take(j as int), self, floats@),
            decreases functions@.len() - j,
        {
            assert(functions@.take(j + 1).drop_last() =~= functions@.take(j as int));
            let (name, func) = &functions[j];
            assert(functions@[j as int].1 == *func);
            push_function_decl(&mut out, name, func, self, floats);
            assert(out@ =~= head + function_decls_text(functions@.take(j + 1), self, floats@));
            j += 1;
        }
        assert(functions@.take(functions@.len() as int) =~= functions@);
        out
    }
}

} // verus!
