//! Items: functions with a body and external function declarations.
use super::Body;
use crate::display::{comma_before, push_type, type_text};
use crate::module::Module;
use crate::text::push_str;
use crate::types::Type;
use vstd::prelude::*;

verus! {

broadcast use {vstd::std_specs::vec::group_vec_axioms, vstd::seq::group_seq_axioms};

/// Function signature (i.e. parameters and return type)
#[derive(Debug)]
pub struct Signature {
    /// Function parameters
    pub args: Vec<(String, Type)>,
    /// Function return type
    pub return_type: Type,
}

/// A function
#[derive(Debug)]
pub struct Function {
    /// Function signature
    pub signature: Signature,
    /// Function body
    pub body: Body,
}

/// An item
#[derive(Debug)]
pub enum Item {
    /// A function
    Function(Function),
    /// External function
    ExternalFunction(Signature),
}

/// The arguments of a signature, each as its name and its type, separated by `, `.
pub open spec fn args_text(s: Seq<(String, Type)>) -> Seq<char>
    decreases s.len(),
{
    if s.len() == 0 {
        Seq::empty()
    } else {
        args_text(s.drop_last()) + comma_before(s.len() - 1) + s.last().0@ + ": "@ + type_text(
            s.last().1@,
            false,
        )
    }
}

/// Text of a signature: `fn`, the name if there is one, the arguments and the return type.
pub open spec fn signature_text(s: Signature, name: Option<Seq<char>>) -> Seq<char> {
    "fn "@ + match name {
        Some(n) => n,
        None => Seq::empty(),
    } + "("@ + args_text(s.args@) + ")"@ + " -> "@ + type_text(s.return_type@, false)
}

/// Text of an item: a function's signature and body, or `extern`, an external
/// function's signature and `;`. `None` where the body cannot be displayed.
pub open spec fn item_text(
    item: Item,
    name: Option<Seq<char>>,
    module: &Module,
    table: Seq<(u32, String)>,
) -> Option<Seq<char>> {
    match item {
        Item::Function(f) => match f.body.body_text(module, table) {
            Some(body) => Some(signature_text(f.signature, name) + " "@ + body),
            None => None,
        },
        Item::ExternalFunction(s) => Some("extern "@ + signature_text(s, name) + ";"@),
    }
}

/// The text of an optional name.
pub open spec fn opt_name(name: Option<&str>) -> Option<Seq<char>> {
    match name {
        Some(n) => Some(n@),
        None => None,
    }
}

impl Signature {
    /// Create a new function signature
    pub fn new(arguments: Vec<(String, Type)>, return_type: Type) -> (r: Signature)
        ensures
            r.args == arguments,
            r.return_type == return_type,
    {
        Signature { args: arguments, return_type }
    }

    /// Append the text of the signature, named `name` if given.
    pub fn push_format(&self, out: &mut String, name: Option<&str>)
        ensures
            final(out)@ == old(out)@ + signature_text(*self, opt_name(name)),
    {
        push_str(out, "fn ");
        if let Some(name) = name {
            push_str(out, name);
        }
        push_str(out, "(");
        let mut i: usize = 0;
        let ghost head = out@;
        assert(self.args@.take(0) =~= Seq::<(String, Type)>::empty());
        assert(head + Seq::<char>::empty() =~= head);
        while i < self.args.len()
            invariant
                i <= self.args@.len(),
                out@ == head + args_text(self.args@.take(i as int)),
            decreases self.args@.len() - i,
        {
            assert(self.args@.take(i + 1).drop_last() =~= self.args@.take(i as int));
            if i > 0 {
                push_str(out, ", ");
            }
            push_str(out, self.args[i].0.as_str());
            push_str(out, ": ");
            push_type(out, &self.args[i].1, false);
            assert(out@ =~= head + args_text(self.args@.take(i + 1)));
            i += 1;
        }
        assert(self.args@.take(self.args@.len() as int) =~= self.args@);
        push_str(out, ")");
        push_str(out, " -> ");
        push_type(out, &self.return_type, false);
        assert(out@ =~= old(out)@ + signature_text(*self, opt_name(name)));
    }

    /// Format the signature, named `name` if given.
    pub fn format(&self, name: Option<&str>) -> (r: String)
        ensures
            r@ == signature_text(*self, opt_name(name)),
    {
        let mut out = String::new();
        self.push_format(&mut out, name);
        assert(out@ =~= signature_text(*self, opt_name(name)));
        out
    }
}

impl Function {
    /// Create a new function
    pub fn new(signature: Signature, body: Body) -> (r: Function)
        ensures
            r.signature == signature,
            r.body == body,
    {
        Function { signature, body }
    }
}

impl Item {
    /// Format the item, named `name` if given; float constants in a body read as the
    /// table's text for their bits.
    pub fn format(&self, name: Option<&str>, module: &Module, floats: &Vec<(u32, String)>) -> (r:
        String)
        requires
            item_text(*self, opt_name(name), module, floats@) is Some,
            self matches Item::Function(f) ==> f.body.variables@.len() <= u32::MAX as nat + 1,
        ensures
            r@ == item_text(*self, opt_name(name), module, floats@).unwrap(),
    {
        let mut out = String::new();
        match self {
            Item::Function(function) => {
                function.signature.push_format(&mut out, name);
                push_str(&mut out, " ");
                let body = function.body.text(module, floats);
                push_str(&mut out, body.as_str());
            },
            Item::ExternalFunction(function) => {
                push_str(&mut out, "extern ");
                function.push_format(&mut out, name);
                push_str(&mut out, ";");
            },
        }
        assert(out@ =~= item_text(*self, opt_name(name), module, floats@).unwrap());
        out
    }

    /// Get a function signature of this item if this item is a function in any way (normal
    /// function, extern function, etc.)
    pub fn function_signature(&self) -> (r: Option<&Signature>)
        ensures
            r == match self {
                Item::Function(f) => Some(&f.signature),
                Item::ExternalFunction(s) => Some(s),
            },
    {
        match self {
            Item::Function(function) => Some(&function.signature),
            Item::ExternalFunction(signature) => Some(signature),
        }
    }
}

} // verus!
