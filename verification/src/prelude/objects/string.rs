use vstd::prelude::*;
use vstd::string::*;
use crate::text::{push_char, push_str};
use crate::vm::signal::{Abort, ErrSignal, Signal};
use crate::var::Var;
use crate::var::meta::{found, get, get_outcome, lookup, resolvable, Found};
use crate::vm::runtime::Vm;

verus! {

/// What a backslash followed by `c` stands for, if that is a known escape.
pub open spec fn escape_char(c: char) -> Option<char> {
    if c == 'n' {
        Some('\n')
    } else if c == 'r' {
        Some('\r')
    } else if c == 't' {
        Some('\t')
    } else if c == '0' {
        Some('\0')
    } else if c == '"' {
        Some('"')
    } else if c == '\'' {
        Some('\'')
    } else if c == '\\' {
        Some('\\')
    } else {
        None
    }
}

/// The outcome of resolving the escapes of a text.
pub enum Unescaped {
    /// The resolved text.
    Done(Seq<char>),
    /// The text ends in a lone backslash.
    Unterminated,
    /// A backslash is followed by a character that is no known escape.
    Unknown(char),
}

/// `p` followed by the outcome `r`.
pub open spec fn after(p: Seq<char>, r: Unescaped) -> Unescaped {
    match r {
        Unescaped::Done(t) => Unescaped::Done(p + t),
        _ => r,
    }
}

/// The escapes of `s` resolved, left to right; the first faulty escape decides the error.
pub open spec fn unescape(s: Seq<char>) -> Unescaped
    decreases s.len(),
{
    if s.len() == 0 {
        Unescaped::Done(Seq::empty())
    } else if s[0] == '\\' {
        if s.len() == 1 {
            Unescaped::Unterminated
        } else {
            match escape_char(s[1]) {
                Some(c) => after(seq![c], unescape(s.skip(2))),
                None => Unescaped::Unknown(s[1]),
            }
        }
    } else {
        after(seq![s[0]], unescape(s.skip(1)))
    }
}

proof fn lemma_after_after(p: Seq<char>, q: Seq<char>, r: Unescaped)
    ensures
        after(p, after(q, r)) == after(p + q, r),
{
    match r {
        Unescaped::Done(t) => { assert(p + (q + t) =~= (p + q) + t); },
        _ => {},
    }
}

/// A text without backslashes is its own resolution.
pub proof fn law_escape_plain(s: Seq<char>)
    requires
        forall|i: int| 0 <= i < s.len() ==> s[i] != '\\',
    ensures
        unescape(s) == Unescaped::Done(s),
    decreases s.len(),
{
    if s.len() > 0 {
        let t = s.skip(1);
        assert forall|i: int| 0 <= i < t.len() implies t[i] != '\\' by { assert(t[i] == s[i + 1]); }
        law_escape_plain(t);
        assert(s[0] != '\\');
        assert(seq![s[0]] + t =~= s);
    } else {
        assert(s =~= Seq::<char>::empty());
    }
}

/// Resolves the escape sequences `\n \r \t \0 \" \' \\` of `s`.
pub fn escape(s: &str) -> (res: Result<String, String>)
    ensures
        match unescape(s@) {
            Unescaped::Done(t) => res matches Ok(r) && r@ == t,
            Unescaped::Unterminated => res matches Err(e) && e@ == "unterminated escape sequence"@,
            Unescaped::Unknown(c) => res matches Err(e) && e@ == "unknown escape sequence: \\"@.push(c),
        },
{
    let n = s.unicode_len();
    let mut result = String::new();
    let mut i: usize = 0;
    proof { assert(s@.skip(0) =~= s@); lemma_after_after(Seq::empty(), Seq::empty(), unescape(s@)); assert(Seq::<char>::empty() + Seq::<char>::empty() =~= Seq::<char>::empty()); }
    while i < n
        invariant
            n == s@.len(),
            i <= n,
            unescape(s@) == after(result@, unescape(s@.skip(i as int))),
        decreases n - i,
    {
        let c = s.get_char(i);
        proof { assert(s@.skip(i as int)[0] == c); }
        if c == '\\' {
            if i + 1 >= n {
                proof { assert(s@.skip(i as int).len() == 1); }
                return Err("unterminated escape sequence".to_owned());
            }
            let d = s.get_char(i + 1);
            proof { assert(s@.skip(i as int)[1] == d); assert(s@.skip(i as int).skip(2) =~= s@.skip(i + 2)); }
            let e = if d == 'n' {
                '\n'
            } else if d == 'r' {
                '\r'
            } else if d == 't' {
                '\t'
            } else if d == '0' {
                '\0'
            } else if d == '"' {
                '"'
            } else if d == '\'' {
                '\''
            } else if d == '\\' {
                '\\'
            } else {
                let mut msg = String::new();
                push_str(&mut msg, "unknown escape sequence: \\");
                push_char(&mut msg, d);
                proof { assert(msg@ == "unknown escape sequence: \\"@.push(d)); }
                return Err(msg);
            };
            proof {
                assert(escape_char(d) == Some(e));
                assert(unescape(s@.skip(i as int)) == after(seq![e], unescape(s@.skip(i + 2))));
                lemma_after_after(result@, seq![e], unescape(s@.skip(i + 2)));
            }
            let ghost before = result@;
            push_char(&mut result, e);
            proof { assert(result@ =~= before + seq![e]); }
            i = i + 2;
        } else {
            proof {
                assert(s@.skip(i as int).skip(1) =~= s@.skip(i + 1));
                assert(unescape(s@.skip(i as int)) == after(seq![c], unescape(s@.skip(i + 1))));
                lemma_after_after(result@, seq![c], unescape(s@.skip(i + 1)));
            }
            let ghost before = result@;
            push_char(&mut result, c);
            proof { assert(result@ =~= before + seq![c]); }
            i = i + 1;
        }
    }
    proof { assert(s@.skip(n as int) =~= Seq::<char>::empty()); assert(result@ + Seq::<char>::empty() =~= result@); }
    Ok(result)
}

/// The first `}` of `s` at or after `k`.
pub open spec fn close_from(s: Seq<char>, k: int) -> Option<int>
    decreases s.len() - k,
{
    if k < 0 || k >= s.len() {
        None
    } else if s[k] == '}' {
        Some(k)
    } else {
        close_from(s, k + 1)
    }
}

/// The names between `{` and the next `}` in `s` from position `i` on, in order; a `{`
/// without a `}` after it ends the list.
pub open spec fn names_from(s: Seq<char>, i: int) -> Seq<Seq<char>>
    decreases s.len() - i, 0int,
{
    if i < 0 || i >= s.len() {
        Seq::empty()
    } else if s[i] == '{' {
        match close_from(s, i + 1) {
            Some(j) => if i < j < s.len() { seq![s.subrange(i + 1, j)] + names_from(s, j + 1) } else { Seq::empty() },
            None => Seq::empty(),
        }
    } else {
        names_from(s, i + 1)
    }
}

/// Every `{` of `s` from position `i` on has a `}` after it.
pub open spec fn closed_from(s: Seq<char>, i: int) -> bool
    decreases s.len() - i,
{
    if i < 0 || i >= s.len() {
        true
    } else if s[i] == '{' {
        match close_from(s, i + 1) {
            Some(j) => if i < j < s.len() { closed_from(s, j + 1) } else { false },
            None => false,
        }
    } else {
        closed_from(s, i + 1)
    }
}

/// `s` from position `i` on with each `{name}` replaced by the next of `vals`.
pub open spec fn fill_from(s: Seq<char>, i: int, vals: Seq<Seq<char>>) -> Seq<char>
    decreases s.len() - i,
{
    if i < 0 || i >= s.len() {
        Seq::empty()
    } else if s[i] == '{' {
        match close_from(s, i + 1) {
            Some(j) => if i < j < s.len() { vals[0] + fill_from(s, j + 1, vals.drop_first()) } else { Seq::empty() },
            None => Seq::empty(),
        }
    } else {
        seq![s[i]] + fill_from(s, i + 1, vals)
    }
}

proof fn lemma_close_from(s: Seq<char>, k: int)
    requires
        0 <= k,
    ensures
        match close_from(s, k) {
            Some(j) => k <= j < s.len() && s[j] == '}' && forall|m: int| k <= m < j ==> s[m] != '}',
            None => forall|m: int| k <= m < s.len() ==> s[m] != '}',
        },
    decreases s.len() - k,
{
    if k < s.len() && s[k] != '}' {
        lemma_close_from(s, k + 1);
    }
}

proof fn lemma_template_plain_from(s: Seq<char>, i: int, vals: Seq<Seq<char>>)
    requires
        0 <= i <= s.len(),
        forall|k: int| 0 <= k < s.len() ==> s[k] != '{',
    ensures
        names_from(s, i).len() == 0,
        closed_from(s, i),
        fill_from(s, i, vals) == s.subrange(i, s.len() as int),
    decreases s.len() - i,
{
    if i < s.len() {
        lemma_template_plain_from(s, i + 1, vals);
        assert(seq![s[i]] + s.subrange(i + 1, s.len() as int) =~= s.subrange(i, s.len() as int));
    } else {
        assert(s.subrange(i, s.len() as int) =~= Seq::<char>::empty());
    }
}

/// A template without `{` asks for no names and is its own result.
pub proof fn law_template_plain(s: Seq<char>, vals: Seq<Seq<char>>)
    requires
        forall|k: int| 0 <= k < s.len() ==> s[k] != '{',
    ensures
        names_from(s, 0).len() == 0,
        closed_from(s, 0),
        fill_from(s, 0, vals) == s,
{
    lemma_template_plain_from(s, 0, vals);
    assert(s.subrange(0, s.len() as int) =~= s);
}

/// The object whose call shows the value of `name` in a template: the `toStr` property of
/// what reading `name` from the scope `ctx` gives.
pub fn to_str_target(vm: &Vm, ctx: Var, name: &str) -> (res: Signal)
    requires
        vm.wf(),
        resolvable(vm.heap@, ctx, name@),
        found(vm.heap@, ctx, name@) matches Found::Bound(x) ==> resolvable(vm.heap@, x, "toStr"@),
    ensures
        exists|r: Signal| #[trigger] get_outcome(*vm, ctx, name@, r) && match r {
            Ok(x) => get_outcome(*vm, x, "toStr"@, res),
            Err(e) => res == Err::<Var, Abort>(e),
        },
{
    let r = get(vm, ctx, name);
    match r {
        Ok(x) => {
            proof {
                let u = vm.undef->Some_0;
                if !(found(vm.heap@, ctx, name@) is Bound) {
                    assert(x == u);
                    assert(vm.heap@[u.ptr as int] is Some);
                    assert(!(lookup(vm.heap@, u, "toStr"@, 0) is Stuck));
                }
            }
            get(vm, x, "toStr")
        },
        Err(e) => Err(e),
    }
}

/// The names a template asks for, in order, and whether every `{` in it is closed.
pub fn template_names(s: &str) -> (res: (Vec<String>, bool))
    ensures
        res.0@.len() == names_from(s@, 0).len(),
        forall|k: int| 0 <= k < res.0@.len() ==> #[trigger] res.0@[k]@ == names_from(s@, 0)[k],
        res.1 == closed_from(s@, 0),
{
    let n = s.unicode_len();
    let mut names: Vec<String> = Vec::new();
    let mut i: usize = 0;
    while i < n
        invariant
            n == s@.len(),
            i <= n,
            names@.len() + names_from(s@, i as int).len() == names_from(s@, 0).len(),
            forall|k: int| 0 <= k < names@.len() ==> #[trigger] names@[k]@ == names_from(s@, 0)[k],
            forall|k: int| 0 <= k < names_from(s@, i as int).len() ==>
                #[trigger] names_from(s@, i as int)[k] == names_from(s@, 0)[names@.len() + k],
            closed_from(s@, 0) == closed_from(s@, i as int),
        decreases n - i,
    {
        let c = s.get_char(i);
        if c == '{' {
            let mut name = String::new();
            let mut j: usize = i + 1;
            proof { lemma_close_from(s@, i + 1); }
            while j < n && s.get_char(j) != '}'
                invariant
                    n == s@.len(),
                    i < j <= n,
                    name@ == s@.subrange(i + 1, j as int),
                    forall|m: int| i + 1 <= m < j ==> s@[m] != '}',
                decreases n - j,
            {
                let d = s.get_char(j);
                push_char(&mut name, d);
                proof { assert(name@ =~= s@.subrange(i + 1, j + 1)); }
                j = j + 1;
            }
            if j >= n {
                proof {
                    lemma_close_from(s@, i + 1);
                    assert(close_from(s@, i + 1) is None);
                }
                return (names, false);
            }
            proof {
                lemma_close_from(s@, i + 1);
                assert(close_from(s@, i + 1) == Some(j as int));
                let rest = names_from(s@, j + 1);
                assert(names_from(s@, i as int) == seq![name@] + rest);
                assert(names_from(s@, i as int)[0] == name@);
                assert forall|k: int| 0 <= k < rest.len() implies #[trigger] rest[k] == names_from(s@, 0)[names@.len() + 1 + k] by {
                    assert(names_from(s@, i as int)[k + 1] == rest[k]);
                }
            }
            names.push(name);
            i = j + 1;
        } else {
            i = i + 1;
        }
    }
    (names, true)
}

/// The template `s` with each `{name}` replaced, in order, by the text given for it; the
/// error for a `{` that is never closed.
pub fn template(s: &str, rendered: &Vec<String>) -> (res: ErrSignal<String>)
    requires
        rendered@.len() == names_from(s@, 0).len(),
    ensures
        closed_from(s@, 0) ==> (res matches Ok(r)
            && r@ == fill_from(s@, 0, rendered@.map_values(|x: String| x@))),
        !closed_from(s@, 0) ==> (res matches Err(Abort::ThrowString(e)) && e@ == "unterminated template"@),
{
    let n = s.unicode_len();
    let mut result = String::new();
    let mut i: usize = 0;
    let mut used: usize = 0;
    let total = rendered.len();
    let ghost vals = rendered@.map_values(|x: String| x@);
    proof { assert(vals.subrange(0, vals.len() as int) =~= vals); assert(result@ + fill_from(s@, 0, vals) =~= fill_from(s@, 0, vals)); }
    while i < n
        invariant
            n == s@.len(),
            i <= n,
            vals == rendered@.map_values(|x: String| x@),
            total == rendered@.len(),
            rendered@.len() == names_from(s@, 0).len(),
            used + names_from(s@, i as int).len() == names_from(s@, 0).len(),
            closed_from(s@, 0) == closed_from(s@, i as int),
            closed_from(s@, 0) ==> fill_from(s@, 0, vals) == result@ + fill_from(s@, i as int, vals.subrange(used as int, vals.len() as int)),
        decreases n - i,
    {
        let c = s.get_char(i);
        if c == '{' {
            let mut j: usize = i + 1;
            proof { lemma_close_from(s@, i + 1); }
            while j < n && s.get_char(j) != '}'
                invariant
                    n == s@.len(),
                    i < j <= n,
                    forall|m: int| i + 1 <= m < j ==> s@[m] != '}',
                decreases n - j,
            {
                j = j + 1;
            }
            if j >= n {
                proof { lemma_close_from(s@, i + 1); assert(close_from(s@, i + 1) is None); }
                return Err(Abort::ThrowString("unterminated template".to_owned()));
            }
            proof {
                lemma_close_from(s@, i + 1);
                assert(close_from(s@, i + 1) == Some(j as int));
                assert(names_from(s@, i as int).len() == 1 + names_from(s@, j + 1).len());
            }
            let ghost before = result@;
            push_str(&mut result, rendered[used].as_str());
            proof {
                let rest = vals.subrange(used as int, vals.len() as int);
                assert(rest[0] == rendered@[used as int]@);
                assert(rest.drop_first() =~= vals.subrange(used + 1, vals.len() as int));
                if closed_from(s@, 0) {
                    assert(fill_from(s@, i as int, rest) == rest[0] + fill_from(s@, j + 1, rest.drop_first()));
                    assert(result@ + fill_from(s@, j + 1, rest.drop_first()) =~= before + (rest[0] + fill_from(s@, j + 1, rest.drop_first())));
                }
            }
            used = used + 1;
            i = j + 1;
        } else {
            let ghost before = result@;
            push_char(&mut result, c);
            proof {
                let rest = vals.subrange(used as int, vals.len() as int);
                if closed_from(s@, 0) {
                    assert(fill_from(s@, i as int, rest) == seq![c] + fill_from(s@, i + 1, rest));
                    assert(result@ + fill_from(s@, i + 1, rest) =~= before + (seq![c] + fill_from(s@, i + 1, rest)));
                }
            }
            i = i + 1;
        }
    }
    proof { assert(result@ + Seq::<char>::empty() =~= result@); }
    Ok(result)
}

} // verus!
