//! Debug text of instructions and bodies.
//!
//! Float constants are held as bit patterns; the text of each pattern comes from a
//! table of `(bits, text)` pairs that the caller supplies.
use super::{Body, Instr, Intrinsic, LabelId, SymbolRef, VariableId};
use crate::display::{generic_args_text, push_generic_args, push_size, push_type, size_text, type_text};
use crate::module::Module;
use crate::text::{dec_int, dec_nat, push_dec, push_dec_signed, push_str};
use crate::types::{fields_view, types_view, Type, TypeModel};
use vstd::prelude::*;

verus! {

broadcast use {vstd::std_specs::vec::group_vec_axioms, vstd::seq::group_seq_axioms};

/// Text of an id: `#` and its number.
pub open spec fn id_text(n: u32) -> Seq<char> {
    "#"@ + dec_nat(n as nat)
}

/// Text the table gives for `bits`: that of its first entry for them.
pub open spec fn float_text(table: Seq<(u32, String)>, bits: u32) -> Seq<char>
    decreases table.len(),
{
    if table.len() == 0 {
        Seq::empty()
    } else if table[0].0 == bits {
        table[0].1@
    } else {
        float_text(table.drop_first(), bits)
    }
}

/// Display text of an intrinsic: its operator, or `aggregate`.
pub open spec fn intrinsic_text(i: Intrinsic) -> Seq<char> {
    match i {
        Intrinsic::Add => "+"@,
        Intrinsic::Sub => "-"@,
        Intrinsic::Mul => "*"@,
        Intrinsic::Div => "/"@,
        Intrinsic::Rem => "%"@,
        Intrinsic::Neg => "-"@,
        Intrinsic::And => "&"@,
        Intrinsic::Or => "|"@,
        Intrinsic::Xor => "^"@,
        Intrinsic::Not => "!"@,
        Intrinsic::Shl => "<<"@,
        Intrinsic::Shr => ">>"@,
        Intrinsic::Eq => "=="@,
        Intrinsic::Lt => "<"@,
        Intrinsic::Le => "<="@,
        Intrinsic::Gt => ">"@,
        Intrinsic::Ge => ">="@,
        Intrinsic::AggregateLiteral(_) => "aggregate"@,
    }
}

/// Display text of an instruction on its own; a float constant reads as the table's
/// text for its bits.
pub open spec fn instr_text(i: Instr, table: Seq<(u32, String)>) -> Seq<char> {
    match i {
        Instr::IConst(v, size) => dec_int(v as int) + "_i"@ + size_text(size),
        Instr::UConst(v, size) => dec_nat(v as nat) + "_u"@ + size_text(size),
        Instr::FConst(bits, size) => float_text(table, bits) + "_f"@ + dec_nat(size as nat),
        Instr::BConst(b) => if b {
            "true"@
        } else {
            "false"@
        },
        Instr::Global(id) => id_text(id.0),
        Instr::Var(id) => "?"@ + id_text(id.0),
        Instr::Field(idx) => "field_"@ + dec_nat(idx as nat),
        Instr::Assign => "assign"@,
        Instr::AcfLabel(l) => "label "@ + id_text(l.0),
        Instr::AcfJump(l) => "jump "@ + id_text(l.0),
        Instr::AcfCJump(l) => "cjump "@ + id_text(l.0),
        Instr::Call(_) => "call"@,
        Instr::Return(_) => "return"@,
        Instr::Intrinsic(intr) => intrinsic_text(intr),
        Instr::Error => "error"@,
    }
}

/// Text of a symbol reference: its name and its generic arguments.
pub open spec fn symbol_ref_text(s: SymbolRef) -> Seq<char> {
    s@.0 + generic_args_text(s@.1)
}

/// Text of an optional debug name: the name, or `_`.
pub open spec fn debug_name(n: Option<String>) -> Seq<char> {
    match n {
        Some(n) => n@,
        None => "_"@,
    }
}

/// Append the text of an id.
pub fn push_id(out: &mut String, n: u32)
    ensures
        final(out)@ == old(out)@ + id_text(n),
{
    push_str(out, "#");
    push_dec(out, n as u64);
    assert(out@ =~= old(out)@ + id_text(n));
}

/// Append the text the table gives for `bits`.
pub fn push_float(out: &mut String, table: &Vec<(u32, String)>, bits: u32)
    ensures
        final(out)@ == old(out)@ + float_text(table@, bits),
{
    let mut k: usize = 0;
    assert(table@.skip(0) =~= table@);
    while k < table.len()
        invariant
            k <= table@.len(),
            float_text(table@, bits) == float_text(table@.skip(k as int), bits),
            *out == *old(out),
        decreases table@.len() - k,
    {
        assert(table@.skip(k as int).drop_first() =~= table@.skip(k + 1));
        if table[k].0 == bits {
            push_str(out, table[k].1.as_str());
            return;
        }
        k += 1;
    }
    assert(out@ =~= old(out)@ + float_text(table@, bits));
}

impl Intrinsic {
    /// Append the display text of the intrinsic.
    pub fn push_text(self, out: &mut String)
        ensures
            final(out)@ == old(out)@ + intrinsic_text(self),
    {
        let s = match self {
            Intrinsic::Add => "+",
            Intrinsic::Sub => "-",
            Intrinsic::Mul => "*",
            Intrinsic::Div => "/",
            Intrinsic::Rem => "%",
            Intrinsic::Neg => "-",
            Intrinsic::And => "&",
            Intrinsic::Or => "|",
            Intrinsic::Xor => "^",
            Intrinsic::Not => "!",
            Intrinsic::Shl => "<<",
            Intrinsic::Shr => ">>",
            Intrinsic::Eq => "==",
            Intrinsic::Lt => "<",
            Intrinsic::Le => "<=",
            Intrinsic::Gt => ">",
            Intrinsic::Ge => ">=",
            Intrinsic::AggregateLiteral(..) => "aggregate",
        };
        push_str(out, s);
    }

    /// Display text of the intrinsic.
    pub fn text(self) -> (r: String)
        ensures
            r@ == intrinsic_text(self),
    {
        let mut out = String::new();
        self.push_text(&mut out);
        assert(out@ =~= intrinsic_text(self));
        out
    }
}

impl Instr {
    /// Append the display text of the instruction; a float constant reads as the
    /// table's text for its bits.
    pub fn push_text(self, out: &mut String, floats: &Vec<(u32, String)>)
        ensures
            final(out)@ == old(out)@ + instr_text(self, floats@),
    {
        let ghost start = out@;
        match self {
            Instr::IConst(v, size) => {
                push_dec_signed(out, v as i64);
                push_str(out, "_i");
                push_size(out, size);
            },
            Instr::UConst(v, size) => {
                push_dec(out, v as u64);
                push_str(out, "_u");
                push_size(out, size);
            },
            Instr::FConst(bits, size) => {
                push_float(out, floats, bits);
                push_str(out, "_f");
                push_dec(out, size as u64);
            },
            Instr::BConst(b) => {
                if b {
                    push_str(out, "true");
                } else {
                    push_str(out, "false");
                }
            },
            Instr::Global(id) => push_id(out, id.0),
            Instr::Var(id) => {
                push_str(out, "?");
                push_id(out, id.0);
            },
            Instr::Field(idx) => {
                push_str(out, "field_");
                push_dec(out, idx as u64);
            },
            Instr::Assign => push_str(out, "assign"),
            Instr::AcfLabel(l) => {
                push_str(out, "label ");
                push_id(out, l.0);
            },
            Instr::AcfJump(l) => {
                push_str(out, "jump ");
                push_id(out, l.0);
            },
            Instr::AcfCJump(l) => {
                push_str(out, "cjump ");
                push_id(out, l.0);
            },
            Instr::Call(_) => push_str(out, "call"),
            Instr::Return(_) => push_str(out, "return"),
            Instr::Intrinsic(intr) => intr.push_text(out),
            Instr::Error => push_str(out, "error"),
        }
        assert(out@ =~= start + instr_text(self, floats@));
    }

    /// Display text of the instruction; a float constant reads as the table's text
    /// for its bits.
    pub fn text(self, floats: &Vec<(u32, String)>) -> (r: String)
        ensures
            r@ == instr_text(self, floats@),
    {
        let mut out = String::new();
        self.push_text(&mut out, floats);
        assert(out@ =~= instr_text(self, floats@));
        out
    }
}

impl SymbolRef {
    /// Display text: the name and the generic arguments.
    pub fn text(&self) -> (r: String)
        ensures
            r@ == symbol_ref_text(*self),
    {
        let mut out = String::new();
        push_str(&mut out, self.name.as_str());
        push_generic_args(&mut out, &self.generics);
        assert(out@ =~= symbol_ref_text(*self));
        out
    }
}


/// What stands between the arguments of an infix intrinsic: its operator with a space
/// on each side.
pub open spec fn infix_sep(i: Instr) -> Seq<char> {
    " "@ + instr_text(i, Seq::empty()) + " "@
}

proof fn lemma_infix_sep(i: Instr, table: Seq<(u32, String)>)
    requires
        i is Intrinsic,
    ensures
        " "@ + instr_text(i, table) + " "@ == infix_sep(i),
{
}

impl Body {
    /// Text that identifies a variable in debug output: its name (or `_`) and its id.
    pub open spec fn var_name_text(&self, id: VariableId) -> Seq<char> {
        debug_name(self.variables@[id.0 as int].name) + id_text(id.0)
    }

    /// Text that identifies a label in debug output: its name (or `_`) and its id.
    pub open spec fn label_name_text(&self, id: LabelId) -> Seq<char> {
        debug_name(self.label_names@[id.0 as int]) + id_text(id.0)
    }

    /// Debug text of the instruction at `idx` with its arguments, and the index just
    /// past them; `None` where printing it fails (an index or id out of range, a field
    /// read from something that is not a struct). An infix intrinsic is printed in
    /// parentheses with its operator between its arguments: `(1_i32 + 2_i32)`.
    pub open spec fn debug_text(&self, module: &Module, table: Seq<(u32, String)>, idx: int) -> Option<
        (Seq<char>, int),
    >
        decreases self.instructions@.len() - idx, 0nat,
    {
        let n = self.instructions@.len() as int;
        if idx < 0 || idx >= n {
            None
        } else {
            let i = self.instructions@[idx];
            match i {
                Instr::Global(id) => if id.0 < self.symbols@.len() {
                    Some((symbol_ref_text(self.symbols@[id.0 as int]), idx + 1))
                } else {
                    None
                },
                Instr::Var(id) => if id.0 < self.variables@.len() {
                    Some((self.var_name_text(id), idx + 1))
                } else {
                    None
                },
                Instr::Assign => match self.debug_text(module, table, idx + 1) {
                    Some((place, e)) => if idx < e <= n {
                        match self.debug_text(module, table, e) {
                            Some((value, e2)) => Some((place + " = "@ + value, e2)),
                            None => None,
                        }
                    } else {
                        None
                    },
                    None => None,
                },
                Instr::Return(has_value) => if has_value {
                    match self.debug_text(module, table, idx + 1) {
                        Some((value, e)) => Some(("return"@ + " "@ + value, e)),
                        None => None,
                    }
                } else {
                    Some(("return"@, idx + 1))
                },
                Instr::Field(field) => if self.value_ty_ok(module, idx + 1) {
                    match self.spec_value_ty(module, idx + 1) {
                        TypeModel::Struct(fields) => if field < fields.len() {
                            match self.debug_text(module, table, idx + 1) {
                                Some((base, e)) => Some(
                                    (
                                        base + match fields[field as int].0 {
                                            Some(name) => "."@ + name,
                                            None => ".field_"@ + dec_nat(field as nat),
                                        },
                                        e,
                                    ),
                                ),
                                None => None,
                            }
                        } else {
                            None
                        },
                        _ => None,
                    }
                } else {
                    None
                },
                Instr::AcfLabel(l) => if l.0 < self.label_names@.len() {
                    Some((self.label_name_text(l) + ":"@, idx + 1))
                } else {
                    None
                },
                Instr::AcfJump(l) => if l.0 < self.label_names@.len() {
                    Some(("jump "@ + self.label_name_text(l), idx + 1))
                } else {
                    None
                },
                Instr::AcfCJump(l) => if l.0 < self.label_names@.len() {
                    match self.debug_text(module, table, idx + 1) {
                        Some((cond, e)) => Some(
                            ("if "@ + cond + " jump "@ + self.label_name_text(l), e),
                        ),
                        None => None,
                    }
                } else {
                    None
                },
                Instr::Call(args) => match self.debug_text(module, table, idx + 1) {
                    Some((callee, e)) => if idx < e <= n {
                        match self.debug_list(module, table, e, args as nat, ", "@, false) {
                            Some((list, e2)) => Some((callee + "("@ + list + ")"@, e2)),
                            None => None,
                        }
                    } else {
                        None
                    },
                    None => None,
                },
                _ => if i matches Instr::Intrinsic(intr) && intr.spec_infix() {
                    match self.debug_list(module, table, idx + 1, i.spec_arg_count(), infix_sep(i), false) {
                        Some((list, e)) => Some(("("@ + list + ")"@, e)),
                        None => None,
                    }
                } else if i.spec_arg_count() > 0 {
                    match self.debug_list(module, table, idx + 1, i.spec_arg_count(), ", "@, false) {
                        Some((list, e)) => Some((instr_text(i, table) + "("@ + list + ")"@, e)),
                        None => None,
                    }
                } else {
                    Some((instr_text(i, table), idx + 1))
                },
            }
        }
    }

    /// Debug text of `count` consecutive instructions with their arguments from `idx`
    /// on, separated by `sep` (and preceded by it when `lead` holds), and the index
    /// just past them.
    pub open spec fn debug_list(
        &self,
        module: &Module,
        table: Seq<(u32, String)>,
        idx: int,
        count: nat,
        sep: Seq<char>,
        lead: bool,
    ) -> Option<(Seq<char>, int)>
        decreases self.instructions@.len() - idx, 1nat,
    {
        let n = self.instructions@.len() as int;
        if count == 0 {
            Some((Seq::empty(), idx))
        } else if idx < 0 || idx > n {
            None
        } else {
            match self.debug_text(module, table, idx) {
                Some((first, e)) => if idx < e <= n {
                    match self.debug_list(module, table, e, (count - 1) as nat, sep, true) {
                        Some((rest, e2)) => Some(
                            (
                                (if lead {
                                    sep
                                } else {
                                    Seq::empty()
                                }) + first + rest,
                                e2,
                            ),
                        ),
                        None => None,
                    }
                } else {
                    None
                },
                None => None,
            }
        }
    }

    fn push_var_name(&self, out: &mut String, id: VariableId)
        requires
            id.0 < self.variables@.len(),
        ensures
            final(out)@ == old(out)@ + self.var_name_text(id),
    {
        match &self.variables[id.0 as usize].name {
            Some(name) => push_str(out, name.as_str()),
            None => push_str(out, "_"),
        }
        push_id(out, id.0);
        assert(out@ =~= old(out)@ + self.var_name_text(id));
    }

    fn push_label_name(&self, out: &mut String, id: LabelId)
        requires
            id.0 < self.label_names@.len(),
        ensures
            final(out)@ == old(out)@ + self.label_name_text(id),
    {
        match &self.label_names[id.0 as usize] {
            Some(name) => push_str(out, name.as_str()),
            None => push_str(out, "_"),
        }
        push_id(out, id.0);
        assert(out@ =~= old(out)@ + self.label_name_text(id));
    }

    /// Get a string used to identify the variable in debug output.
    pub fn var_debug_name(&self, id: VariableId) -> (r: String)
        requires
            id.0 < self.variables@.len(),
        ensures
            r@ == self.var_name_text(id),
    {
        let mut out = String::new();
        self.push_var_name(&mut out, id);
        assert(out@ =~= self.var_name_text(id));
        out
    }

    /// Get a string used to identify the label in debug output
    pub fn label_debug_name(&self, id: LabelId) -> (r: String)
        requires
            id.0 < self.label_names@.len(),
        ensures
            r@ == self.label_name_text(id),
    {
        let mut out = String::new();
        self.push_label_name(&mut out, id);
        assert(out@ =~= self.label_name_text(id));
        out
    }

    /// Debug-print an instruction at `idx` with its arguments into `out`; returns the
    /// index just past them.
    #[verifier::rlimit(60)]
    pub fn debug_instr(
        &self,
        module: &Module,
        floats: &Vec<(u32, String)>,
        idx: usize,
        out: &mut String,
    ) -> (next: usize)
        requires
            self.debug_text(module, floats@, idx as int) is Some,
        ensures
            final(out)@ == old(out)@ + self.debug_text(module, floats@, idx as int).unwrap().0,
            next == self.debug_text(module, floats@, idx as int).unwrap().1,
        decreases self.instructions@.len() - idx, 0nat,
    {
        let ghost start = out@;
        let ghost spec = self.debug_text(module, floats@, idx as int).unwrap();
        let n = self.instructions.len();
        assert(idx < n);
        let i = self.instructions[idx];
        match i {
            Instr::Global(id) => {
                let s = self.symbol(id);
                push_str(out, s.name.as_str());
                push_generic_args(out, &s.generics);
                assert(out@ =~= start + spec.0);
                idx + 1
            },
            Instr::Var(id) => {
                self.push_var_name(out, id);
                idx + 1
            },
            Instr::Assign => {
                let e = self.debug_instr(module, floats, idx + 1, out);
                push_str(out, " = ");
                let e2 = self.debug_instr(module, floats, e, out);
                assert(out@ =~= start + spec.0);
                e2
            },
            Instr::Return(has_value) => {
                push_str(out, "return");
                if has_value {
                    push_str(out, " ");
                    let e = self.debug_instr(module, floats, idx + 1, out);
                    assert(out@ =~= start + spec.0);
                    e
                } else {
                    idx + 1
                }
            },
            Instr::Field(field) => {
                let ty = self.value_ty(module, idx + 1);
                let e = self.debug_instr(module, floats, idx + 1, out);
                match ty {
                    Type::Struct { fields } => {
                        proof {
                            crate::types::lemma_fields_view_len(fields@);
                            crate::types::lemma_fields_view_index(fields@, field as int);
                        }
                        match &fields[field as usize].0 {
                            Some(name) => {
                                push_str(out, ".");
                                push_str(out, name.as_str());
                            },
                            None => {
                                push_str(out, ".field_");
                                push_dec(out, field as u64);
                            },
                        }
                    },
                    _ => {},
                }
                assert(out@ =~= start + spec.0);
                e
            },
            Instr::AcfLabel(l) => {
                self.push_label_name(out, l);
                push_str(out, ":");
                assert(out@ =~= start + spec.0);
                idx + 1
            },
            Instr::AcfJump(l) => {
                push_str(out, "jump ");
                self.push_label_name(out, l);
                assert(out@ =~= start + spec.0);
                idx + 1
            },
            Instr::AcfCJump(l) => {
                push_str(out, "if ");
                let e = self.debug_instr(module, floats, idx + 1, out);
                push_str(out, " jump ");
                self.push_label_name(out, l);
                assert(out@ =~= start + spec.0);
                e
            },
            Instr::Call(args) => {
                let e = self.debug_instr(module, floats, idx + 1, out);
                push_str(out, "(");
                let e2 = self.debug_args(module, floats, e, args, ", ", false, out);
                push_str(out, ")");
                assert(out@ =~= start + spec.0);
                e2
            },
            Instr::Intrinsic(intr) if intr.infix() => {
                let mut sep = String::new();
                push_str(&mut sep, " ");
                i.push_text(&mut sep, floats);
                push_str(&mut sep, " ");
                proof {
                    lemma_infix_sep(i, floats@);
                }
                assert(sep@ =~= infix_sep(i));
                push_str(out, "(");
                let e = self.debug_args(module, floats, idx + 1, i.arg_count(), sep.as_str(), false, out);
                push_str(out, ")");
                assert(out@ =~= start + spec.0);
                e
            },
            _ => {
                i.push_text(out, floats);
                let args = i.arg_count();
                if args > 0 {
                    push_str(out, "(");
                    let e = self.debug_args(module, floats, idx + 1, args, ", ", false, out);
                    push_str(out, ")");
                    assert(out@ =~= start + spec.0);
                    e
                } else {
                    idx + 1
                }
            },
        }
    }

    fn debug_args(
        &self,
        module: &Module,
        floats: &Vec<(u32, String)>,
        idx: usize,
        count: u32,
        sep: &str,
        lead: bool,
        out: &mut String,
    ) -> (next: usize)
        requires
            self.debug_list(module, floats@, idx as int, count as nat, sep@, lead) is Some,
        ensures
            final(out)@ == old(out)@ + self.debug_list(
                module,
                floats@,
                idx as int,
                count as nat,
                sep@,
                lead,
            ).unwrap().0,
            next == self.debug_list(module, floats@, idx as int, count as nat, sep@, lead).unwrap().1,
        decreases self.instructions@.len() - idx, 1nat,
    {
        let ghost start = out@;
        if count == 0 {
            assert(out@ =~= start + Seq::<char>::empty());
            return idx;
        }
        if lead {
            push_str(out, sep);
        }
        let e = self.debug_instr(module, floats, idx, out);
        let e2 = self.debug_args(module, floats, e, count - 1, sep, true, out);
        assert(out@ =~= start + self.debug_list(module, floats@, idx as int, count as nat, sep@, lead).unwrap().0);
        e2
    }
}


/// Declarations of the variables: for each, `let`, its debug name, its type, whether it
/// is an argument, one per indented line.
pub open spec fn vars_text(s: Seq<super::VariableInfo>) -> Seq<char>
    decreases s.len(),
{
    if s.len() == 0 {
        Seq::empty()
    } else {
        let idx = (s.len() - 1) as nat;
        let v = s.last();
        vars_text(s.drop_last()) + "  let "@ + debug_name(v.name) + "#"@ + dec_nat(idx) + ": "@
            + type_text(v.ty@, false) + (if v.arg {
            " = <argument>"@
        } else {
            Seq::empty()
        }) + ";"@ + "\n"@
    }
}

impl Body {
    /// Text of the statements from `idx` on: each label on a line of its own, each
    /// other instruction with its arguments on an indented line ending with `;`.
    pub open spec fn stmts_text(&self, module: &Module, table: Seq<(u32, String)>, idx: int) -> Option<
        Seq<char>,
    >
        decreases self.instructions@.len() - idx,
    {
        let n = self.instructions@.len() as int;
        if idx < 0 {
            None
        } else if idx >= n {
            Some(Seq::empty())
        } else {
            match self.debug_text(module, table, idx) {
                Some((t, e)) => if idx < e <= n {
                    match self.stmts_text(module, table, e) {
                        Some(rest) => Some(
                            (if self.instructions@[idx] is AcfLabel {
                                t + "\n"@
                            } else {
                                "  "@ + t + ";\n"@
                            }) + rest,
                        ),
                        None => None,
                    }
                } else {
                    None
                },
                None => None,
            }
        }
    }

    /// Display text of the body: `{}` when it has neither variables nor instructions,
    /// else a braced block of the variable declarations and then the statements.
    pub open spec fn body_text(&self, module: &Module, table: Seq<(u32, String)>) -> Option<Seq<char>> {
        if self.variables@.len() == 0 && self.instructions@.len() == 0 {
            Some("{}"@)
        } else {
            match self.stmts_text(module, table, 0) {
                Some(stmts) => Some("{\n"@ + vars_text(self.variables@) + stmts + "}"@),
                None => None,
            }
        }
    }

    #[verifier::rlimit(40)]
    fn push_vars(&self, out: &mut String)
        requires
            self.variables@.len() <= u32::MAX as nat + 1,
        ensures
            final(out)@ == old(out)@ + vars_text(self.variables@),
    {
        let mut i: usize = 0;
        assert(self.variables@.take(0) =~= Seq::<super::VariableInfo>::empty());
        assert(old(out)@ + Seq::<char>::empty() =~= old(out)@);
        while i < self.variables.len()
            invariant
                i <= self.variables@.len(),
                self.variables@.len() <= u32::MAX as nat + 1,
                out@ == old(out)@ + vars_text(self.variables@.take(i as int)),
            decreases self.variables@.len() - i,
        {
            let ghost before = out@;
            assert(self.variables@.take(i + 1).drop_last() =~= self.variables@.take(i as int));
            let v = &self.variables[i];
            push_str(out, "  let ");
            match &v.name {
                Some(name) => push_str(out, name.as_str()),
                None => push_str(out, "_"),
            }
            push_str(out, "#");
            push_dec(out, i as u64);
            push_str(out, ": ");
            push_type(out, &v.ty, false);
            if v.arg {
                push_str(out, " = <argument>");
            }
            push_str(out, ";");
            push_str(out, "\n");
            assert(out@ =~= old(out)@ + vars_text(self.variables@.take(i + 1)));
            i += 1;
        }
        assert(self.variables@.take(self.variables@.len() as int) =~= self.variables@);
    }

    fn push_stmts(&self, module: &Module, floats: &Vec<(u32, String)>, out: &mut String)
        requires
            self.stmts_text(module, floats@, 0) is Some,
        ensures
            final(out)@ == old(out)@ + self.stmts_text(module, floats@, 0).unwrap(),
    {
        let mut idx: usize = 0;
        assert(old(out)@ + Seq::<char>::empty() =~= old(out)@);
        while idx < self.instructions.len()
            invariant
                idx <= self.instructions@.len(),
                self.stmts_text(module, floats@, idx as int) is Some,
                old(out)@ + self.stmts_text(module, floats@, 0).unwrap() == out@
                    + self.stmts_text(module, floats@, idx as int).unwrap(),
            decreases self.instructions@.len() - idx,
        {
            let ghost before = out@;
            let ghost rest = self.stmts_text(module, floats@, idx as int).unwrap();
            let is_label = match self.instructions[idx] {
                Instr::AcfLabel(..) => true,
                _ => false,
            };
            if is_label {
                idx = self.debug_instr(module, floats, idx, out);
                push_str(out, "\n");
            } else {
                push_str(out, "  ");
                idx = self.debug_instr(module, floats, idx, out);
                push_str(out, ";\n");
            }
            assert(before + rest =~= out@ + self.stmts_text(module, floats@, idx as int).unwrap());
        }
        assert(out@ + self.stmts_text(module, floats@, idx as int).unwrap() =~= out@);
    }

    /// Display text of the body; float constants read as the table's text for their
    /// bits.
    pub fn text(&self, module: &Module, floats: &Vec<(u32, String)>) -> (r: String)
        requires
            self.body_text(module, floats@) is Some,
            self.variables@.len() <= u32::MAX as nat + 1,
        ensures
            r@ == self.body_text(module, floats@).unwrap(),
    {
        let mut out = String::new();
        if self.variables.len() == 0 && self.instructions.len() == 0 {
            push_str(&mut out, "{}");
        } else {
            push_str(&mut out, "{\n");
            self.push_vars(&mut out);
            self.push_stmts(module, floats, &mut out);
            push_str(&mut out, "}");
        }
        assert(out@ =~= self.body_text(module, floats@).unwrap());
        out
    }
}


/// Printing an instruction reads it and its arguments and nothing before it: the index
/// it ends at is past the instruction and within the body. So does printing a list of
/// them.
pub proof fn law_debug_text_advances(body: &Body, module: &Module, table: Seq<(u32, String)>, idx: int)
    requires
        body.debug_text(module, table, idx) is Some,
    ensures
        idx < body.debug_text(module, table, idx).unwrap().1 <= body.instructions@.len(),
    decreases body.instructions@.len() - idx, 0nat,
{
    let n = body.instructions@.len() as int;
    let i = body.instructions@[idx];
    match i {
        Instr::Assign => {
            let e = body.debug_text(module, table, idx + 1).unwrap().1;
            law_debug_text_advances(body, module, table, e);
        },
        Instr::Return(has_value) => {
            if has_value {
                law_debug_text_advances(body, module, table, idx + 1);
            }
        },
        Instr::Field(_) => {
            law_debug_text_advances(body, module, table, idx + 1);
        },
        Instr::AcfCJump(_) => {
            law_debug_text_advances(body, module, table, idx + 1);
        },
        Instr::Call(args) => {
            let e = body.debug_text(module, table, idx + 1).unwrap().1;
            law_debug_list_advances(body, module, table, e, args as nat, ", "@, false);
        },
        Instr::Global(_) | Instr::Var(_) | Instr::AcfLabel(_) | Instr::AcfJump(_) => {},
        _ => {
            if i matches Instr::Intrinsic(intr) && intr.spec_infix() {
                law_debug_list_advances(body, module, table, idx + 1, i.spec_arg_count(), infix_sep(i), false);
            } else if i.spec_arg_count() > 0 {
                law_debug_list_advances(body, module, table, idx + 1, i.spec_arg_count(), ", "@, false);
            }
        },
    }
}

/// A variable or label is named in debug output by its name (`_` when it has none)
/// followed by `#` and its id in decimal.
pub proof fn law_debug_names_carry_ids(body: &Body, var: VariableId, label: LabelId)
    ensures
        ("#"@ + dec_nat(var.0 as nat)).is_suffix_of(body.var_name_text(var)),
        ("#"@ + dec_nat(label.0 as nat)).is_suffix_of(body.label_name_text(label)),
        (match body.variables@[var.0 as int].name {
            Some(n) => n@,
            None => "_"@,
        }).is_prefix_of(body.var_name_text(var)),
        (match body.label_names@[label.0 as int] {
            Some(n) => n@,
            None => "_"@,
        }).is_prefix_of(body.label_name_text(label)),
{
    let v = body.var_name_text(var);
    let l = body.label_name_text(label);
    let vn = debug_name(body.variables@[var.0 as int].name);
    let ln = debug_name(body.label_names@[label.0 as int]);
    assert(v.subrange(0, vn.len() as int) =~= vn);
    assert(l.subrange(0, ln.len() as int) =~= ln);
    assert(v.subrange(v.len() - id_text(var.0).len(), v.len() as int) =~= id_text(var.0));
    assert(l.subrange(l.len() - id_text(label.0).len(), l.len() as int) =~= id_text(label.0));
}

/// Every variable or label an instruction refers to appears in its debug text: a
/// variable is printed as its debug name, a label is followed by `:`, a jump prints
/// `jump` and then the label's debug name, a conditional jump starts with `if ` and
/// ends with the label's debug name.
pub proof fn law_debug_text_names_targets(body: &Body, module: &Module, table: Seq<(u32, String)>, idx: int)
    requires
        body.debug_text(module, table, idx) is Some,
    ensures
        body.instructions@[idx] matches Instr::Var(id) ==> body.debug_text(module, table, idx).unwrap().0
            == body.var_name_text(id),
        body.instructions@[idx] matches Instr::AcfLabel(l) ==> body.debug_text(
            module,
            table,
            idx,
        ).unwrap().0 == body.label_name_text(l) + ":"@,
        body.instructions@[idx] matches Instr::AcfJump(l) ==> "jump "@.is_prefix_of(
            body.debug_text(module, table, idx).unwrap().0,
        ) && body.label_name_text(l).is_suffix_of(body.debug_text(module, table, idx).unwrap().0),
        body.instructions@[idx] matches Instr::AcfCJump(l) ==> "if "@.is_prefix_of(
            body.debug_text(module, table, idx).unwrap().0,
        ) && body.label_name_text(l).is_suffix_of(body.debug_text(module, table, idx).unwrap().0),
{
    let t = body.debug_text(module, table, idx).unwrap().0;
    reveal_strlit("jump ");
    reveal_strlit("if ");
    match body.instructions@[idx] {
        Instr::AcfJump(l) => {
            let n = body.label_name_text(l);
            assert(t.subrange(0, 5) =~= "jump "@);
            assert(t.subrange(t.len() - n.len(), t.len() as int) =~= n);
        },
        Instr::AcfCJump(l) => {
            let n = body.label_name_text(l);
            assert(t.subrange(0, 3) =~= "if "@);
            assert(t.subrange(t.len() - n.len(), t.len() as int) =~= n);
        },
        _ => {},
    }
}

/// Printing `count` instructions with their arguments ends within the body, at or
/// past where it started.
pub proof fn law_debug_list_advances(
    body: &Body,
    module: &Module,
    table: Seq<(u32, String)>,
    idx: int,
    count: nat,
    sep: Seq<char>,
    lead: bool,
)
    requires
        body.debug_list(module, table, idx, count, sep, lead) is Some,
        0 <= idx <= body.instructions@.len(),
    ensures
        idx <= body.debug_list(module, table, idx, count, sep, lead).unwrap().1 <= body.instructions@.len(),
    decreases body.instructions@.len() - idx, 1nat,
{
    if count > 0 {
        let e = body.debug_text(module, table, idx).unwrap().1;
        law_debug_list_advances(body, module, table, e, (count - 1) as nat, sep, true);
    }
}


impl Body {
    /// Whether the type of the value at `idx` can be computed in `module`.
    pub fn value_ty_checked(&self, module: &Module, idx: usize) -> (r: bool)
        ensures
            r == self.value_ty_ok(module, idx as int),
        decreases self.instructions@.len() - idx,
    {
        if idx >= self.instructions.len() {
            return false;
        }
        match self.instructions[idx] {
            Instr::Global(id) => {
                if id.0 as usize >= self.symbols.len() {
                    return false;
                }
                let sym = &self.symbols[id.0 as usize];
                match module.find_function(&sym.name) {
                    Some(f) => sym.generics.len() == f.generics.len(),
                    None => false,
                }
            },
            Instr::Var(id) => (id.0 as usize) < self.variables.len(),
            Instr::Field(field) => {
                if !self.value_ty_checked(module, idx + 1) {
                    return false;
                }
                match self.value_ty(module, idx + 1) {
                    Type::Struct { fields } => {
                        proof {
                            crate::types::lemma_fields_view_len(fields@);
                        }
                        (field as usize) < fields.len()
                    },
                    _ => false,
                }
            },
            Instr::Call(_) => {
                if !self.value_ty_checked(module, idx + 1) {
                    return false;
                }
                match self.value_ty(module, idx + 1) {
                    Type::FnPtr { .. } => true,
                    _ => false,
                }
            },
            Instr::Intrinsic(intr) => match intr.type_override() {
                Some(_) => true,
                None => self.value_ty_checked(module, idx + 1),
            },
            _ => true,
        }
    }

    /// Where printing the instruction at `idx` ends, or `None` where it cannot be
    /// printed.
    pub fn debug_end(&self, module: &Module, floats: &Vec<(u32, String)>, idx: usize) -> (r: Option<usize>)
        ensures
            match self.debug_text(module, floats@, idx as int) {
                Some((_, e)) => r is Some && r.unwrap() == e,
                None => r is None,
            },
        decreases self.instructions@.len() - idx, 0nat,
    {
        proof {
            if self.debug_text(module, floats@, idx as int) is Some {
                law_debug_text_advances(self, module, floats@, idx as int);
            }
        }
        let n = self.instructions.len();
        if idx >= n {
            return None;
        }
        let i = self.instructions[idx];
        match i {
            Instr::Global(id) => if (id.0 as usize) < self.symbols.len() {
                Some(idx + 1)
            } else {
                None
            },
            Instr::Var(id) => if (id.0 as usize) < self.variables.len() {
                Some(idx + 1)
            } else {
                None
            },
            Instr::Assign => match self.debug_end(module, floats, idx + 1) {
                Some(e) => if idx < e && e <= n {
                    self.debug_end(module, floats, e)
                } else {
                    None
                },
                None => None,
            },
            Instr::Return(has_value) => if has_value {
                self.debug_end(module, floats, idx + 1)
            } else {
                Some(idx + 1)
            },
            Instr::Field(field) => {
                if !self.value_ty_checked(module, idx + 1) {
                    return None;
                }
                let ok = match self.value_ty(module, idx + 1) {
                    Type::Struct { fields } => {
                        proof {
                            crate::types::lemma_fields_view_len(fields@);
                        }
                        (field as usize) < fields.len()
                    },
                    _ => false,
                };
                if ok {
                    self.debug_end(module, floats, idx + 1)
                } else {
                    None
                }
            },
            Instr::AcfLabel(l) | Instr::AcfJump(l) => if (l.0 as usize) < self.label_names.len() {
                Some(idx + 1)
            } else {
                None
            },
            Instr::AcfCJump(l) => if (l.0 as usize) < self.label_names.len() {
                self.debug_end(module, floats, idx + 1)
            } else {
                None
            },
            Instr::Call(args) => match self.debug_end(module, floats, idx + 1) {
                Some(e) => if idx < e && e <= n {
                    self.debug_list_end(module, floats, e, args, Ghost(", "@), false)
                } else {
                    None
                },
                None => None,
            },
            Instr::Intrinsic(intr) if intr.infix() => self.debug_list_end(
                module,
                floats,
                idx + 1,
                i.arg_count(),
                Ghost(infix_sep(i)),
                false,
            ),
            _ => {
                let args = i.arg_count();
                if args > 0 {
                    self.debug_list_end(module, floats, idx + 1, args, Ghost(", "@), false)
                } else {
                    Some(idx + 1)
                }
            },
        }
    }

    fn debug_list_end(
        &self,
        module: &Module,
        floats: &Vec<(u32, String)>,
        idx: usize,
        count: u32,
        sep: Ghost<Seq<char>>,
        lead: bool,
    ) -> (r: Option<usize>)
        ensures
            match self.debug_list(module, floats@, idx as int, count as nat, sep@, lead) {
                Some((_, e)) => r is Some && r.unwrap() == e,
                None => r is None,
            },
        decreases self.instructions@.len() - idx, 1nat,
    {
        if count == 0 {
            return Some(idx);
        }
        if idx > self.instructions.len() {
            return None;
        }
        proof {
            if self.debug_list(module, floats@, idx as int, count as nat, sep@, lead) is Some {
                law_debug_list_advances(self, module, floats@, idx as int, count as nat, sep@, lead);
            }
        }
        match self.debug_end(module, floats, idx) {
            Some(e) => if idx < e && e <= self.instructions.len() {
                self.debug_list_end(module, floats, e, count - 1, sep, true)
            } else {
                None
            },
            None => None,
        }
    }

    /// Whether the body can be displayed: every statement can be printed.
    pub fn displayable(&self, module: &Module, floats: &Vec<(u32, String)>) -> (r: bool)
        ensures
            r == self.body_text(module, floats@) is Some,
    {
        if self.variables.len() == 0 && self.instructions.len() == 0 {
            return true;
        }
        let mut idx: usize = 0;
        while idx < self.instructions.len()
            invariant
                idx <= self.instructions@.len(),
                self.stmts_text(module, floats@, 0) is Some <==> self.stmts_text(module, floats@, idx as int) is Some,
            decreases self.instructions@.len() - idx,
        {
            match self.debug_end(module, floats, idx) {
                Some(e) => {
                    if idx < e && e <= self.instructions.len() {
                        idx = e;
                    } else {
                        return false;
                    }
                },
                None => {
                    return false;
                },
            }
        }
        true
    }
}

} // verus!
