//! External tool runs that the library decides on and the caller performs.

use vstd::prelude::*;
use crate::config::{opt_text, texts};

verus! {

/// One run of an outside program.
#[derive(Debug)]
pub struct Invocation {
    /// Subdirectory to run in, relative to the directory of the configuration;
    /// `None` for that directory itself.
    pub dir: Option<String>,
    pub program: String,
    pub args: Vec<String>,
}

/// What an invocation stands for.
pub ghost struct InvocationModel {
    pub dir: Option<Seq<char>>,
    pub program: Seq<char>,
    pub args: Seq<Seq<char>>,
}

impl View for Invocation {
    type V = InvocationModel;

    open spec fn view(&self) -> InvocationModel {
        InvocationModel { dir: opt_text(self.dir), program: self.program@, args: texts(self.args@) }
    }
}

/// The model of each invocation, in order.
pub open spec fn invocation_models(v: Seq<Invocation>) -> Seq<InvocationModel> {
    v.map_values(|i: Invocation| i@)
}

/// An owned copy of a text.
pub fn owned(s: &str) -> (r: String)
    ensures
        r@ == s@,
{
    s.to_owned()
}

} // verus!
