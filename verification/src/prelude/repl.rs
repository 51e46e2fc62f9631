use vstd::prelude::*;
use vstd::string::*;
use crate::text::{push_char, push_str, str_eq};

verus! {

/// Whether `c` has the Unicode property White_Space, which is what std's `str::trim` removes.
pub open spec fn is_white_space(c: char) -> bool {
    let n = c as u32;
    ||| 0x9 <= n <= 0xd
    ||| n == 0x20
    ||| n == 0x85
    ||| n == 0xa0
    ||| n == 0x1680
    ||| 0x2000 <= n <= 0x200a
    ||| n == 0x2028
    ||| n == 0x2029
    ||| n == 0x202f
    ||| n == 0x205f
    ||| n == 0x3000
}

/// `s` without its leading whitespace.
pub open spec fn trim_start(s: Seq<char>) -> Seq<char>
    decreases s.len(),
{
    if s.len() > 0 && is_white_space(s[0]) { trim_start(s.drop_first()) } else { s }
}

/// `s` without its trailing whitespace.
pub open spec fn trim_end(s: Seq<char>) -> Seq<char>
    decreases s.len(),
{
    if s.len() > 0 && is_white_space(s.last()) { trim_end(s.drop_last()) } else { s }
}

/// `s` without its leading and trailing whitespace.
pub open spec fn trim_text(s: Seq<char>) -> Seq<char> {
    trim_end(trim_start(s))
}

/// Whether `c` has the Unicode property White_Space.
fn white_space(c: char) -> (res: bool)
    ensures
        res == is_white_space(c),
{
    let n = c as u32;
    (0x9 <= n && n <= 0xd) || n == 0x20 || n == 0x85 || n == 0xa0 || n == 0x1680
        || (0x2000 <= n && n <= 0x200a) || n == 0x2028 || n == 0x2029 || n == 0x202f
        || n == 0x205f || n == 0x3000
}

proof fn lemma_trim_start(s: Seq<char>, a: int)
    requires
        0 <= a <= s.len(),
        forall|k: int| 0 <= k < a ==> is_white_space(#[trigger] s[k]),
        a < s.len() ==> !is_white_space(s[a]),
    ensures
        trim_start(s) == s.subrange(a, s.len() as int),
    decreases a,
{
    if a == 0 {
        assert(s.subrange(0, s.len() as int) =~= s);
    } else {
        let t = s.drop_first();
        assert forall|k: int| 0 <= k < a - 1 implies is_white_space(#[trigger] t[k]) by {
            assert(t[k] == s[k + 1]);
        }
        if a - 1 < t.len() { assert(t[a - 1] == s[a]); }
        lemma_trim_start(t, a - 1);
        assert(t.subrange(a - 1, t.len() as int) =~= s.subrange(a, s.len() as int));
        assert(is_white_space(s[0]));
    }
}

proof fn lemma_trim_end(t: Seq<char>, b: int)
    requires
        0 <= b <= t.len(),
        forall|k: int| b <= k < t.len() ==> is_white_space(#[trigger] t[k]),
        b > 0 ==> !is_white_space(t[b - 1]),
    ensures
        trim_end(t) == t.subrange(0, b),
    decreases t.len() - b,
{
    if b == t.len() {
        assert(t.subrange(0, b) =~= t);
    } else {
        let u = t.drop_last();
        assert(is_white_space(t[t.len() - 1]));
        assert forall|k: int| b <= k < u.len() implies is_white_space(#[trigger] u[k]) by {
            assert(u[k] == t[k]);
        }
        if b > 0 { assert(u[b - 1] == t[b - 1]); }
        lemma_trim_end(u, b);
        assert(u.subrange(0, b) =~= t.subrange(0, b));
    }
}

/// `s` without its leading and trailing whitespace, as std's `str::trim` gives it.
fn trimmed(s: &str) -> (res: String)
    ensures
        res@ == trim_text(s@),
{
    let n = s.unicode_len();
    let mut a: usize = 0;
    while a < n && white_space(s.get_char(a))
        invariant
            n == s@.len(),
            a <= n,
            forall|k: int| 0 <= k < a ==> is_white_space(#[trigger] s@[k]),
        decreases n - a,
    {
        a = a + 1;
    }
    let mut b: usize = n;
    while b > a && white_space(s.get_char(b - 1))
        invariant
            n == s@.len(),
            a <= b <= n,
            forall|k: int| b <= k < n ==> is_white_space(#[trigger] s@[k]),
        decreases b - a,
    {
        b = b - 1;
    }
    let mut res = String::new();
    let mut i: usize = a;
    while i < b
        invariant
            n == s@.len(),
            a <= i <= b <= n,
            res@ == s@.subrange(a as int, i as int),
        decreases b - i,
    {
        push_char(&mut res, s.get_char(i));
        i = i + 1;
        proof { assert(res@ =~= s@.subrange(a as int, i as int)); }
    }
    proof {
        lemma_trim_start(s@, a as int);
        let t = s@.subrange(a as int, n as int);
        assert forall|k: int| b - a <= k < t.len() implies is_white_space(#[trigger] t[k]) by {
            assert(t[k] == s@[k + a]);
        }
        if b > a { assert(t[b - a - 1] == s@[b - 1]); }
        lemma_trim_end(t, b - a);
        assert(t.subrange(0, b - a) =~= s@.subrange(a as int, b as int));
    }
    res
}

/// The number of line feeds in `s`.
pub open spec fn newlines(s: Seq<char>) -> nat
    decreases s.len(),
{
    if s.len() == 0 {
        0
    } else {
        newlines(s.drop_last()) + if s.last() == '\n' { 1nat } else { 0nat }
    }
}

/// The number of lines of `s`: the pieces it splits into at line feeds.
pub open spec fn line_count(s: Seq<char>) -> nat {
    newlines(s) + 1
}

/// The number of line feeds in `s`.
fn count_newlines(s: &str) -> (res: usize)
    ensures
        res == newlines(s@),
{
    let n = s.unicode_len();
    let mut i: usize = 0;
    let mut count: usize = 0;
    while i < n
        invariant
            n == s@.len(),
            i <= n,
            count == newlines(s@.subrange(0, i as int)),
            count <= i,
        decreases n - i,
    {
        proof { assert(s@.subrange(0, i + 1 as int).drop_last() =~= s@.subrange(0, i as int)); }
        if s.get_char(i) == '\n' {
            count = count + 1;
        }
        i = i + 1;
    }
    proof { assert(s@.subrange(0, n as int) =~= s@); }
    count
}

/// Whether `s`, trimmed, ends with `c`.
pub open spec fn ends_trimmed_with(s: Seq<char>, c: char) -> bool {
    trim_text(s).len() > 0 && trim_text(s).last() == c
}

fn trimmed_ends_with(s: &str, c: char) -> (res: bool)
    ensures
        res == ends_trimmed_with(s@, c),
{
    let t = trimmed(s);
    let n = t.as_str().unicode_len();
    n > 0 && t.as_str().get_char(n - 1) == c
}

/// Where the read-eval-print loop stands between two lines read.
pub struct Repl {
    /// What has been read of a block that is still open.
    pub input: String,
    /// A line ending in `{` opened a block, and no line ending in `}` closed it yet.
    pub in_block: bool,
    /// The line at which the last input began.
    pub begin: usize,
    /// The line after the last input.
    pub end: usize,
}

/// What the loop does after a line.
pub enum ReplStep {
    /// `.exit` was read: the loop ends.
    Exit,
    /// A block is open: read another line of it.
    More,
    /// An input is complete: it is parsed and run. `closed` tells whether it closed a block.
    Run { input: String, closed: bool },
}

/// The input that a line completes, if it completes one: the line itself outside a block
/// (unless it opens one, or is `.exit`), the block with the line where the line closes it.
pub open spec fn completed(st: Repl, line: Seq<char>) -> Option<Seq<char>> {
    if st.in_block {
        if ends_trimmed_with(line, '}') { Some(st.input@ + line) } else { None }
    } else if trim_text(line) == ".exit"@ || ends_trimmed_with(line, '{') {
        None
    } else {
        Some(line)
    }
}

/// The line count of the input completed stays within `usize`, as the loop's line
/// bookkeeping needs.
pub open spec fn step_fits(st: Repl, line: Seq<char>) -> bool {
    completed(st, line) matches Some(input) ==> st.end + line_count(input) <= usize::MAX
}

impl Repl {
    /// The loop before its first line.
    pub fn new() -> (res: Self)
        ensures
            res.input@ == Seq::<char>::empty(),
            !res.in_block,
            res.begin == 0,
            res.end == 0,
    {
        Repl { input: String::new(), in_block: false, begin: 0, end: 0 }
    }

    /// Whether the line bookkeeping of `step` on `line` stays within `usize`.
    pub fn fits(&self, line: &str) -> (res: bool)
        ensures
            res == step_fits(*self, line@),
    {
        if self.in_block {
            if !trimmed_ends_with(line, '}') {
                return true;
            }
            let mut whole = self.input.clone();
            push_str(&mut whole, line);
            self.fits_input(whole.as_str())
        } else {
            let t = trimmed(line);
            if str_eq(t.as_str(), ".exit") || trimmed_ends_with(line, '{') {
                proof { reveal_strlit(".exit"); }
                return true;
            }
            proof { reveal_strlit(".exit"); }
            self.fits_input(line)
        }
    }

    fn fits_input(&self, input: &str) -> (res: bool)
        ensures
            res == (self.end + line_count(input@) <= usize::MAX),
    {
        let k = count_newlines(input);
        self.end < usize::MAX && k <= usize::MAX - self.end - 1
    }

    /// Takes the next line read: `.exit` ends the loop; a line ending in `{` opens a block,
    /// whose lines are gathered until one ends in `}`; any other line, or a closed block, is
    /// an input to run. Leading and trailing whitespace is ignored in these tests. A
    /// completed input advances the line numbers by its number of lines.
    pub fn step(&mut self, line: String) -> (res: ReplStep)
        requires
            step_fits(*old(self), line@),
        ensures
            match completed(*old(self), line@) {
                Some(input) => {
                    &&& res matches ReplStep::Run { input: i, closed } && i@ == input && closed == old(self).in_block
                    &&& !final(self).in_block
                    &&& final(self).input@ == Seq::<char>::empty()
                    &&& final(self).begin == old(self).end
                    &&& final(self).end == old(self).end + line_count(input)
                },
                None => if !old(self).in_block && trim_text(line@) == ".exit"@ {
                    &&& res is Exit
                    &&& *final(self) == *old(self)
                } else {
                    &&& res is More
                    &&& final(self).in_block
                    &&& final(self).input@ == if old(self).in_block { old(self).input@ + line@ } else { line@ }
                    &&& final(self).begin == old(self).begin
                    &&& final(self).end == old(self).end
                },
            },
    {
        proof { reveal_strlit(".exit"); }
        if self.in_block {
            if trimmed_ends_with(line.as_str(), '}') {
                let mut input = self.input.clone();
                push_str(&mut input, line.as_str());
                self.in_block = false;
                self.finish(input, true)
            } else {
                push_str(&mut self.input, line.as_str());
                ReplStep::More
            }
        } else {
            let t = trimmed(line.as_str());
            if str_eq(t.as_str(), ".exit") {
                ReplStep::Exit
            } else if trimmed_ends_with(line.as_str(), '{') {
                self.input = line;
                self.in_block = true;
                ReplStep::More
            } else {
                self.finish(line, false)
            }
        }
    }

    fn finish(&mut self, input: String, closed: bool) -> (res: ReplStep)
        requires
            old(self).end + line_count(input@) <= usize::MAX,
        ensures
            res matches ReplStep::Run { input: i, closed: c } && i@ == input@ && c == closed,
            final(self).in_block == old(self).in_block,
            final(self).input@ == Seq::<char>::empty(),
            final(self).begin == old(self).end,
            final(self).end == old(self).end + line_count(input@),
    {
        let k = count_newlines(input.as_str());
        self.begin = self.end;
        self.end = self.end + k + 1;
        self.input = String::new();
        ReplStep::Run { input, closed }
    }
}

} // verus!
