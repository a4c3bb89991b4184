//! The data model of an expansion batch and of its output.
//!
//! Code fragments — argument expressions, attributes, function bodies —
//! are carried as opaque text: the expansion copies them verbatim and
//! never interprets them.  Every type has a mathematical view over
//! `Seq<char>` that the contracts speak of.

use vstd::prelude::*;

verus! {

/// One argument of a declared case, as an abstract code fragment.
#[derive(Debug)]
pub enum Arg {
    /// A verbatim expression fragment, substituted unevaluated.
    Fragment(String),
    /// A string literal with the given contents.
    StrLit(String),
    /// A call that loads the contents of the file at the given absolute
    /// path when the generated code is compiled.
    FileContents(String),
}

/// The view of an [`Arg`].
#[verifier::ext_equal]
pub ghost enum SpecArg {
    Fragment(Seq<char>),
    StrLit(Seq<char>),
    FileContents(Seq<char>),
}

impl View for Arg {
    type V = SpecArg;

    open spec fn view(&self) -> SpecArg {
        match self {
            Arg::Fragment(s) => SpecArg::Fragment(s@),
            Arg::StrLit(s) => SpecArg::StrLit(s@),
            Arg::FileContents(s) => SpecArg::FileContents(s@),
        }
    }
}

/// One parameter of the decorated function: its binding name and the
/// text of its type.
#[derive(Debug)]
pub struct Param {
    pub name: String,
    pub ty: String,
}

/// The view of a [`Param`].
#[verifier::ext_equal]
pub ghost struct SpecParam {
    pub name: Seq<char>,
    pub ty: Seq<char>,
}

impl View for Param {
    type V = SpecParam;

    open spec fn view(&self) -> SpecParam {
        SpecParam { name: self.name@, ty: self.ty@ }
    }
}

/// The decorated function: its name, its ordered parameters, the other
/// attributes stacked on it (to forward verbatim to every generated
/// case), and its opaque body.
#[derive(Debug)]
pub struct TestFn {
    pub name: String,
    pub params: Vec<Param>,
    pub attrs: Vec<String>,
    pub body: String,
}

/// The view of a [`TestFn`].
#[verifier::ext_equal]
pub ghost struct SpecTestFn {
    pub name: Seq<char>,
    pub params: Seq<SpecParam>,
    pub attrs: Seq<Seq<char>>,
    pub body: Seq<char>,
}

impl View for TestFn {
    type V = SpecTestFn;

    open spec fn view(&self) -> SpecTestFn {
        SpecTestFn {
            name: self.name@,
            params: self.params@.map_values(|p: Param| p@),
            attrs: self.attrs@.map_values(|a: String| a@),
            body: self.body@,
        }
    }
}

/// One declared test case: its ordered arguments and its case name.
#[derive(Debug)]
pub struct CaseSpec {
    pub args: Vec<Arg>,
    pub name: String,
}

/// The view of a [`CaseSpec`].
#[verifier::ext_equal]
pub ghost struct SpecCaseSpec {
    pub args: Seq<SpecArg>,
    pub name: Seq<char>,
}

impl View for CaseSpec {
    type V = SpecCaseSpec;

    open spec fn view(&self) -> SpecCaseSpec {
        SpecCaseSpec { args: self.args@.map_values(|a: Arg| a@), name: self.name@ }
    }
}

/// One local binding at the top of a generated body: the parameter's
/// name and type, bound to a case's argument.
#[derive(Debug)]
pub struct Binding {
    pub name: String,
    pub ty: String,
    pub value: Arg,
}

/// The view of a [`Binding`].
#[verifier::ext_equal]
pub ghost struct SpecBinding {
    pub name: Seq<char>,
    pub ty: Seq<char>,
    pub value: SpecArg,
}

impl View for Binding {
    type V = SpecBinding;

    open spec fn view(&self) -> SpecBinding {
        SpecBinding { name: self.name@, ty: self.ty@, value: self.value@ }
    }
}

/// One generated test function: named after its case, carrying the
/// forwarded attributes, the binding preamble and the original body.
#[derive(Debug)]
pub struct GeneratedCase {
    pub name: String,
    pub attrs: Vec<String>,
    pub bindings: Vec<Binding>,
    pub body: String,
}

/// The view of a [`GeneratedCase`].
#[verifier::ext_equal]
pub ghost struct SpecGeneratedCase {
    pub name: Seq<char>,
    pub attrs: Seq<Seq<char>>,
    pub bindings: Seq<SpecBinding>,
    pub body: Seq<char>,
}

impl View for GeneratedCase {
    type V = SpecGeneratedCase;

    open spec fn view(&self) -> SpecGeneratedCase {
        SpecGeneratedCase {
            name: self.name@,
            attrs: self.attrs@.map_values(|a: String| a@),
            bindings: self.bindings@.map_values(|b: Binding| b@),
            body: self.body@,
        }
    }
}

/// The produced fragment: a grouping scope named after the original
/// function, holding one generated function per case.
#[derive(Debug)]
pub struct TestGroup {
    pub name: String,
    pub cases: Vec<GeneratedCase>,
}

/// The view of a [`TestGroup`].
#[verifier::ext_equal]
pub ghost struct SpecTestGroup {
    pub name: Seq<char>,
    pub cases: Seq<SpecGeneratedCase>,
}

impl View for TestGroup {
    type V = SpecTestGroup;

    open spec fn view(&self) -> SpecTestGroup {
        SpecTestGroup { name: self.name@, cases: self.cases@.map_values(|c: GeneratedCase| c@) }
    }
}

/// Copies a string; the copy reads the same.
pub fn copy_string(s: &str) -> (r: String)
    ensures
        r@ == s@,
{
    s.to_owned()
}

/// Copies a vector of strings; the copy reads the same, element by
/// element.
pub fn copy_strings(v: &Vec<String>) -> (r: Vec<String>)
    ensures
        r@.map_values(|a: String| a@) == v@.map_values(|a: String| a@),
{
    let mut out: Vec<String> = Vec::new();
    let mut i: usize = 0;
    while i < v.len()
        invariant
            i <= v.len(),
            out@.map_values(|a: String| a@) == v@.take(i as int).map_values(|a: String| a@),
        decreases v.len() - i,
    {
        out.push(copy_string(v[i].as_str()));
        proof {
            assert(v@.take(i + 1).map_values(|a: String| a@)
                =~= v@.take(i as int).map_values(|a: String| a@).push(v@[i as int]@));
        }
        i = i + 1;
    }
    proof {
        assert(v@.take(v.len() as int) =~= v@);
    }
    out
}

/// Copies an argument fragment; the copy's view is unchanged.
pub fn copy_arg(a: &Arg) -> (r: Arg)
    ensures
        r@ == a@,
{
    match a {
        Arg::Fragment(s) => Arg::Fragment(copy_string(s.as_str())),
        Arg::StrLit(s) => Arg::StrLit(copy_string(s.as_str())),
        Arg::FileContents(s) => Arg::FileContents(copy_string(s.as_str())),
    }
}

} // verus!
