use vstd::prelude::*;
use crate::var::Var;
use crate::text::push_str;

verus! {

/// An array object: its elements.
pub struct Array {
    pub inner: Vec<Var>,
}

impl Array {
    pub fn new(v: Vec<Var>) -> (res: Self)
        ensures
            res.inner@ == v@,
    {
        Self { inner: v }
    }

    /// The elements.
    pub fn borrow(&self) -> (res: &Vec<Var>)
        ensures
            res@ == self.inner@,
    {
        &self.inner
    }
}

/// How an array is shown, given how its elements are shown: `[`, the first element, then
/// `, ` before every element, the first one included, and `]`.
pub open spec fn array_text(texts: Seq<Seq<char>>) -> Seq<char> {
    "["@ + (if texts.len() > 0 { texts[0] } else { Seq::empty() }) + joined(texts) + "]"@
}

/// `, ` before each of `texts`.
pub open spec fn joined(texts: Seq<Seq<char>>) -> Seq<char>
    decreases texts.len(),
{
    if texts.len() == 0 { Seq::empty() } else { joined(texts.drop_last()) + ", "@ + texts.last() }
}

impl Array {
    /// The array shown, given how each of its elements is shown.
    pub fn to_text(&self, texts: &Vec<String>) -> (res: String)
        requires
            texts@.len() == self.inner@.len(),
        ensures
            res@ == array_text(texts@.map_values(|t: String| t@)),
    {
        let ghost ts = texts@.map_values(|t: String| t@);
        let mut out = String::new();
        push_str(&mut out, "[");
        if texts.len() > 0 {
            push_str(&mut out, texts[0].as_str());
        }
        let ghost head = out@;
        let mut i: usize = 0;
        while i < texts.len()
            invariant
                i <= texts@.len(),
                ts == texts@.map_values(|t: String| t@),
                out@ == head + joined(ts.subrange(0, i as int)),
            decreases texts@.len() - i,
        {
            push_str(&mut out, ", ");
            push_str(&mut out, texts[i].as_str());
            proof { assert(ts.subrange(0, i + 1).drop_last() =~= ts.subrange(0, i as int)); }
            i = i + 1;
        }
        proof { assert(ts.subrange(0, ts.len() as int) =~= ts); }
        push_str(&mut out, "]");
        out
    }
}

/// An empty array.
pub fn new() -> (res: Array)
    ensures
        res.inner@.len() == 0,
{
    Array::new(Vec::new())
}

} // verus!
