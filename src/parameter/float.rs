use crate::text::copy_text;
use vstd::prelude::*;

verus! {

/// A format pattern for floating-point values; they are written in Rust's
/// shortest decimal form whatever it holds.
pub struct FloatFormatter(String);

impl FloatFormatter {
    pub closed spec fn pattern(&self) -> Seq<char> {
        self.0@
    }

    pub fn new(pattern: &str) -> (r: Self)
        ensures
            r.pattern() == pattern@,
    {
        FloatFormatter(copy_text(pattern))
    }
}

} // verus!
