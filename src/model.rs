use vstd::prelude::*;

verus! {

/// What an argument or a member is taken to hold.
#[derive(Clone, Copy, Debug, PartialEq, Eq, Structural)]
pub enum Type {
    Object,
    Array,
    Boolean,
    String,
    Number,
}

/// The decoded text of raw source bytes, invalid UTF-8 sequences replaced.
pub uninterp spec fn utf8_lossy(b: Seq<u8>) -> Seq<char>;

/// Relies on `String::from_utf8_lossy`: the text depends on the bytes alone,
/// and bytes that are valid UTF-8, as ASCII bytes are, decode one character
/// per byte when all are ASCII.
#[verifier::external_body]
pub(crate) fn lossy_string(b: &[u8]) -> (r: String)
    ensures
        r@ == utf8_lossy(b@),
        (forall|i: int| 0 <= i < b@.len() ==> #[trigger] b@[i] < 128u8) ==> r@ == b@.map_values(|c: u8| c as char),
{
    String::from_utf8_lossy(b).into_owned()
}

/// A field declaration of the class. The scanner does not recognise field
/// declarations yet, so no model ever holds one.
#[derive(Debug)]
pub struct Member {
    pub is_static: bool,
    pub name: String,
    pub var_type: Type,
    pub value: String,
}

/// One argument of a function signature; `value` is empty without a default.
#[derive(Debug)]
pub struct Arg {
    pub name: String,
    pub var_type: Type,
    pub value: String,
}

/// One function of the class. `lines` is never filled: the body is only
/// walked to find where the function ends.
#[derive(Debug)]
pub struct Function {
    pub is_static: bool,
    pub name: String,
    pub args: Vec<Arg>,
    pub lines: Vec<String>,
}

/// The structural model of a class.
#[derive(Debug)]
pub struct Class {
    pub name: String,
    pub extends: String,
    pub implements: String,
    pub members: Vec<Member>,
    pub functions: Vec<Function>,
}

pub struct MemberView {
    pub is_static: bool,
    pub name: Seq<char>,
    pub var_type: Type,
    pub value: Seq<char>,
}

pub struct ArgView {
    pub name: Seq<char>,
    pub var_type: Type,
    pub value: Seq<char>,
}

pub struct FunctionView {
    pub is_static: bool,
    pub name: Seq<char>,
    pub args: Seq<ArgView>,
    pub lines: Seq<Seq<char>>,
}

pub struct ClassView {
    pub name: Seq<char>,
    pub extends: Seq<char>,
    pub implements: Seq<char>,
    pub members: Seq<MemberView>,
    pub functions: Seq<FunctionView>,
}

impl View for Member {
    type V = MemberView;

    open spec fn view(&self) -> MemberView {
        MemberView {
            is_static: self.is_static,
            name: self.name@,
            var_type: self.var_type,
            value: self.value@,
        }
    }
}

impl View for Arg {
    type V = ArgView;

    open spec fn view(&self) -> ArgView {
        ArgView { name: self.name@, var_type: self.var_type, value: self.value@ }
    }
}

impl View for Function {
    type V = FunctionView;

    open spec fn view(&self) -> FunctionView {
        FunctionView {
            is_static: self.is_static,
            name: self.name@,
            args: self.args@.map_values(|a: Arg| a@),
            lines: self.lines@.map_values(|l: String| l@),
        }
    }
}

impl View for Class {
    type V = ClassView;

    open spec fn view(&self) -> ClassView {
        ClassView {
            name: self.name@,
            extends: self.extends@,
            implements: self.implements@,
            members: self.members@.map_values(|m: Member| m@),
            functions: self.functions@.map_values(|f: Function| f@),
        }
    }
}

} // verus!
