use vstd::prelude::*;
use crate::text::str_eq;
use crate::var::{Value, Var, VarPtr};
use crate::vm::heap::{live, object, Mark};
use crate::vm::runtime::{heap_wf, Vm};
use crate::vm::ctx::lemma_push_wf;
use crate::vm::signal::ErrSignal;
use crate::vm::{Code, Token};

verus! {

/// A token with its keywords told apart.
pub enum ML {
    Id(String),
    Number(u64),
    Str(String),
    Template(String),
    Bracket(Vec<ML>),
    Large(Vec<ML>),
    Middle(Vec<ML>),
    Line(Vec<ML>),
    The(Var),
    If,
    Then,
    Else,
    Lambda,
    Assign,
    Do,
    End,
    Match,
    In,
}

/// The keyword a word stands for, if it is one.
pub open spec fn keyword(s: Seq<char>) -> Option<ML> {
    if s == "\\"@ { Some(ML::Lambda) }
    else if s == "if"@ { Some(ML::If) }
    else if s == "then"@ { Some(ML::Then) }
    else if s == "else"@ { Some(ML::Else) }
    else if s == "set"@ { Some(ML::Assign) }
    else if s == "in"@ { Some(ML::In) }
    else if s == "do"@ { Some(ML::Do) }
    else if s == "end"@ { Some(ML::End) }
    else if s == "match"@ { Some(ML::Match) }
    else { None }
}

/// The reserved word a keyword is written as.
pub open spec fn keyword_word(k: ML) -> Option<Seq<char>> {
    match k {
        ML::Lambda => Some("\\"@),
        ML::If => Some("if"@),
        ML::Then => Some("then"@),
        ML::Else => Some("else"@),
        ML::Assign => Some("set"@),
        ML::In => Some("in"@),
        ML::Do => Some("do"@),
        ML::End => Some("end"@),
        ML::Match => Some("match"@),
        _ => None,
    }
}

/// Each reserved word is read as the keyword it names: a keyword's own word gives that
/// keyword back, and any word read as a keyword is that keyword's word. So distinct words
/// give distinct keywords.
pub proof fn law_keywords(s: Seq<char>, t: Seq<char>, k: ML)
    ensures
        keyword_word(k) matches Some(w) ==> keyword(w) == Some(k),
        keyword(s) matches Some(j) ==> keyword_word(j) == Some(s),
        keyword(s) is Some && keyword(s) == keyword(t) ==> s == t,
{
    reveal_strlit("\\");
    reveal_strlit("if");
    reveal_strlit("then");
    reveal_strlit("else");
    reveal_strlit("set");
    reveal_strlit("in");
    reveal_strlit("do");
    reveal_strlit("end");
    reveal_strlit("match");
    let l = "\\"@;
    let w_if = "if"@;
    let w_then = "then"@;
    let w_else = "else"@;
    let w_set = "set"@;
    let w_in = "in"@;
    let w_do = "do"@;
    let w_end = "end"@;
    let w_match = "match"@;
    assert(l.len() == 1 && w_if.len() == 2 && w_then.len() == 4 && w_else.len() == 4 && w_set.len() == 3);
    assert(w_in.len() == 2 && w_do.len() == 2 && w_end.len() == 3 && w_match.len() == 5);
    assert(w_if != l && w_then != l && w_else != l && w_set != l && w_in != l && w_do != l && w_end != l && w_match != l);
    assert(w_if[0] == 'i' && w_in[0] == 'i' && w_if[1] != w_in[1]);
    assert(w_then != w_if && w_else != w_if && w_set != w_if && w_in != w_if && w_do != w_if && w_end != w_if && w_match != w_if);
    assert(w_else[0] != w_then[0] && w_set != w_then && w_in != w_then && w_do != w_then && w_end != w_then && w_match != w_then);
    assert(w_end[0] == 'e' && w_else[1] != w_end[1]);
    assert(w_set != w_else && w_in != w_else && w_do != w_else && w_end != w_else && w_match != w_else);
    assert(w_end[0] != w_set[0]);
    assert(w_in != w_set && w_do != w_set && w_end != w_set && w_match != w_set);
    assert(w_do[0] != w_in[0]);
    assert(w_do != w_in && w_end != w_in && w_match != w_in);
    assert(w_end != w_do && w_match != w_do);
    assert(w_match != w_end);
}

/// `m` is the token `t` with its keywords told apart, the same down the whole tree.
pub open spec fn ml_of(t: Token, m: ML) -> bool
    decreases t,
{
    match t {
        Token::Number(f) => m == ML::Number(f),
        Token::The(c) => m == ML::The(c),
        Token::Id(s) => match keyword(s@) {
            Some(k) => m == k,
            None => m matches ML::Id(r) && r@ == s@,
        },
        Token::Str(s) => m matches ML::Str(r) && r@ == s@,
        Token::Template(s) => m matches ML::Template(r) && r@ == s@,
        Token::Line(b) => m matches ML::Line(c) && c@.len() == b@.len()
            && forall|i: int| 0 <= i < b@.len() ==> ml_of(#[trigger] b@[i], c@[i]),
        Token::Bracket(b) => m matches ML::Bracket(c) && c@.len() == b@.len()
            && forall|i: int| 0 <= i < b@.len() ==> ml_of(#[trigger] b@[i], c@[i]),
        Token::Large(b) => m matches ML::Large(c) && c@.len() == b@.len()
            && forall|i: int| 0 <= i < b@.len() ==> ml_of(#[trigger] b@[i], c@[i]),
        Token::Middle(b) => m matches ML::Middle(c) && c@.len() == b@.len()
            && forall|i: int| 0 <= i < b@.len() ==> ml_of(#[trigger] b@[i], c@[i]),
    }
}

/// A tree that can be turned into code: words, numbers, strings, templates and objects;
/// braces of such trees; non-empty square brackets. Parentheses, lines and keywords cannot.
pub open spec fn compilable(m: ML) -> bool
    decreases m,
{
    match m {
        ML::Id(_) | ML::Number(_) | ML::Str(_) | ML::Template(_) | ML::The(_) => true,
        ML::Large(b) => forall|i: int| 0 <= i < b@.len() ==> compilable(#[trigger] b@[i]),
        ML::Middle(b) => b@.len() > 0,
        _ => false,
    }
}

/// The number of objects compiling `m` puts on the heap: one for each number and each string
/// in it.
pub open spec fn lit_count(m: ML) -> nat
    decreases m, 0int,
{
    match m {
        ML::Number(_) | ML::Str(_) => 1,
        ML::Large(b) => {
            proof { assert(decreases_to!(m => b@)); }
            lits_before(b@, b@.len() as int)
        },
        _ => 0,
    }
}

/// The number of objects compiling the first `i` trees of `b` puts on the heap.
pub open spec fn lits_before(b: Seq<ML>, i: int) -> nat
    decreases b, i,
{
    if i <= 0 || i > b.len() {
        0
    } else {
        proof { assert(decreases_to!(b => b[i - 1])); }
        lits_before(b, i - 1) + lit_count(b[i - 1])
    }
}

/// `c` is the code for `m` on the heap `h`, its objects put in the slots from `pos` on, one
/// after the other: each number and each string becomes a new object, marked `New`, in the
/// next slot; braces become the block of their items' codes, in order; square brackets an
/// empty array.
pub open spec fn code_of(m: ML, c: Code, h: Seq<Option<VarPtr>>, pos: nat) -> bool
    decreases m,
{
    match m {
        ML::Id(s) => c matches Code::Id(r) && r@ == s@,
        ML::Number(f) => {
            &&& c matches Code::The(v) && v.ptr == pos
            &&& pos < h.len()
            &&& h[pos as int] == Some(VarPtr { mark: Mark::New, value: Value::Number(f) })
        },
        ML::Str(s) => {
            &&& c matches Code::The(v) && v.ptr == pos
            &&& pos < h.len()
            &&& h[pos as int] is Some
            &&& h[pos as int]->Some_0.mark == Mark::New
            &&& h[pos as int]->Some_0.value matches Value::Str(r) && r@ == s@
        },
        ML::Template(s) => c matches Code::Template(r) && r@ == s@,
        ML::The(x) => c == Code::The(x),
        ML::Large(b) => c matches Code::Block(d) && d@.len() == b@.len()
            && forall|i: int| 0 <= i < b@.len() ==> code_of(#[trigger] b@[i], d@[i], h, pos + lits_before(b@, i)),
        ML::Middle(_) => c matches Code::Array(d) && d@.len() == 0,
        _ => false,
    }
}

/// Compiling a braced block gives the block of its items' codes, in order, each item's new
/// objects placed right after those of the items before it, and the block puts on the heap
/// exactly what its items put there; a word and a template compile to themselves.
pub proof fn law_block_items(b: Vec<ML>, c: Code, h: Seq<Option<VarPtr>>, pos: nat)
    requires
        code_of(ML::Large(b), c, h, pos),
    ensures
        c matches Code::Block(d) && d@.len() == b@.len()
            && forall|i: int| 0 <= i < b@.len() ==> code_of(#[trigger] b@[i], d@[i], h, pos + lits_before(b@, i)),
        lit_count(ML::Large(b)) == lits_before(b@, b@.len() as int),
        forall|i: int| 0 <= i < b@.len() ==> #[trigger] lits_before(b@, i + 1) == lits_before(b@, i) + lit_count(b@[i]),
        forall|s: String, k: Code| #[trigger] code_of(ML::Id(s), k, h, pos) <==> (k matches Code::Id(r) && r@ == s@),
        forall|s: String, k: Code| #[trigger] code_of(ML::Template(s), k, h, pos) <==> (k matches Code::Template(r) && r@ == s@),
{
}

/// `b` is `a` with more objects put after the ones it had.
pub open spec fn grown(a: Seq<Option<VarPtr>>, b: Seq<Option<VarPtr>>) -> bool {
    a.len() <= b.len() && b.subrange(0, a.len() as int) == a
}

proof fn lemma_code_grown(m: ML, c: Code, h: Seq<Option<VarPtr>>, h2: Seq<Option<VarPtr>>, pos: nat)
    requires
        code_of(m, c, h, pos),
        grown(h, h2),
    ensures
        code_of(m, c, h2, pos),
    decreases m,
{
    match m {
        ML::Number(_) | ML::Str(_) => {
            assert(h2[pos as int] == h2.subrange(0, h.len() as int)[pos as int]);
        },
        ML::Large(b) => {
            let d = c->Block_0;
            assert forall|i: int| 0 <= i < b@.len() implies code_of(#[trigger] b@[i], d@[i], h2, pos + lits_before(b@, i)) by {
                assert(decreases_to!(m => b));
                lemma_code_grown(b@[i], d@[i], h, h2, pos + lits_before(b@, i));
            }
        },
        _ => {},
    }
}

proof fn lemma_grown_trans(a: Seq<Option<VarPtr>>, b: Seq<Option<VarPtr>>, c: Seq<Option<VarPtr>>)
    requires
        grown(a, b),
        grown(b, c),
    ensures
        grown(a, c),
{
    assert(c.subrange(0, a.len() as int) =~= c.subrange(0, b.len() as int).subrange(0, a.len() as int));
}

proof fn lemma_grown_push(a: Seq<Option<VarPtr>>, x: Option<VarPtr>)
    ensures
        grown(a, a.push(x)),
{
    assert(a.push(x).subrange(0, a.len() as int) =~= a);
}

/// Turns a tree into code, putting its numbers and strings on the heap as new objects, in
/// order, one slot each, after the objects already there. It never fails.
pub fn tran(vm: &mut Vm, token: &ML) -> (res: ErrSignal<Code>)
    requires
        compilable(*token),
    ensures
        res matches Ok(c) && code_of(*token, c, final(vm).heap@, old(vm).heap@.len()),
        final(vm).heap@.len() == old(vm).heap@.len() + lit_count(*token),
        grown(old(vm).heap@, final(vm).heap@),
        final(vm).same_roots(old(vm)),
        heap_wf(old(vm).heap@) ==> heap_wf(final(vm).heap@),
        old(vm).wf() ==> final(vm).wf(),
    decreases token,
{
    proof { assert(old(vm).heap@.subrange(0, old(vm).heap@.len() as int) =~= old(vm).heap@); }
    let hc = match token {
        ML::Id(s) => Code::Id(s.clone()),
        ML::Number(f) => {
            let v = vm.alloc_value(Value::Number(*f));
            proof { lemma_grown_push(old(vm).heap@, vm.heap@.last()); lemma_push_wf(*old(vm), *vm); }
            Code::The(v)
        },
        ML::Str(s) => {
            let v = vm.alloc_value(Value::Str(s.clone()));
            proof { lemma_grown_push(old(vm).heap@, vm.heap@.last()); lemma_push_wf(*old(vm), *vm); }
            Code::The(v)
        },
        ML::Template(s) => Code::Template(s.clone()),
        ML::Large(b) => {
            let hc = match tran_all(vm, b) {
                Ok(hc) => hc,
                Err(e) => { return Err(e); },
            };
            Code::Block(hc)
        },
        ML::Middle(b) => {
            let hc: Vec<Code> = Vec::with_capacity((b.len() - 1) / 2);
            Code::Array(hc)
        },
        ML::The(c) => Code::The(*c),
        _ => {
            proof { assert(false); }
            Code::Array(Vec::new())
        },
    };
    Ok(hc)
}

/// Turns each of the trees `b` into code, in order, each putting its objects on the heap after
/// those of the trees before it. It never fails.
pub fn tran_all(vm: &mut Vm, b: &Vec<ML>) -> (res: ErrSignal<Vec<Code>>)
    requires
        forall|k: int| 0 <= k < b@.len() ==> compilable(#[trigger] b@[k]),
    ensures
        res matches Ok(hc) && hc@.len() == b@.len()
            && forall|k: int| 0 <= k < b@.len() ==> code_of(#[trigger] b@[k], hc@[k], final(vm).heap@,
                old(vm).heap@.len() + lits_before(b@, k)),
        final(vm).heap@.len() == old(vm).heap@.len() + lits_before(b@, b@.len() as int),
        grown(old(vm).heap@, final(vm).heap@),
        final(vm).same_roots(old(vm)),
        heap_wf(old(vm).heap@) ==> heap_wf(final(vm).heap@),
        old(vm).wf() ==> final(vm).wf(),
    decreases b,
{
    proof { assert(old(vm).heap@.subrange(0, old(vm).heap@.len() as int) =~= old(vm).heap@); }
    let mut hc: Vec<Code> = Vec::with_capacity(b.len());
    let mut i: usize = 0;
    while i < b.len()
        invariant
            forall|k: int| 0 <= k < b@.len() ==> compilable(#[trigger] b@[k]),
            i <= b@.len(),
            hc@.len() == i,
            forall|k: int| 0 <= k < i ==> code_of(#[trigger] b@[k], hc@[k], vm.heap@, old(vm).heap@.len() + lits_before(b@, k)),
            vm.heap@.len() == old(vm).heap@.len() + lits_before(b@, i as int),
            grown(old(vm).heap@, vm.heap@),
            vm.same_roots(old(vm)),
            heap_wf(old(vm).heap@) ==> heap_wf(vm.heap@),
            old(vm).wf() ==> vm.wf(),
        decreases b@.len() - i,
    {
        proof { assert(compilable(b@[i as int])); assert(decreases_to!(b => b@[i as int])); }
        let ghost hb = vm.heap@;
        let c = match tran(vm, &b[i]) {
            Ok(c) => c,
            Err(e) => { return Err(e); },
        };
        proof {
            lemma_grown_trans(old(vm).heap@, hb, vm.heap@);
            assert forall|k: int| 0 <= k < i implies code_of(#[trigger] b@[k], hc@[k], vm.heap@, old(vm).heap@.len() + lits_before(b@, k)) by {
                lemma_code_grown(b@[k], hc@[k], hb, vm.heap@, old(vm).heap@.len() + lits_before(b@, k));
            }
            assert(lits_before(b@, i + 1) == lits_before(b@, i as int) + lit_count(b@[i as int]));
        }
        hc.push(c);
        i = i + 1;
    }
    Ok(hc)
}

/// A token tree that can be turned into code: no parentheses, no lines, no keywords, no
/// empty square brackets.
pub open spec fn token_ok(t: Token) -> bool
    decreases t,
{
    match t {
        Token::Number(_) | Token::The(_) | Token::Str(_) | Token::Template(_) => true,
        Token::Id(s) => keyword(s@) is None,
        Token::Large(b) => forall|i: int| 0 <= i < b@.len() ==> token_ok(#[trigger] b@[i]),
        Token::Middle(b) => b@.len() > 0,
        _ => false,
    }
}

/// The number of objects compiling the token tree `t` puts on the heap: one for each number
/// and each string in it.
pub open spec fn token_lit_count(t: Token) -> nat
    decreases t, 0int,
{
    match t {
        Token::Number(_) | Token::Str(_) => 1,
        Token::Large(b) => {
            proof { assert(decreases_to!(t => b@)); }
            token_lits_before(b@, b@.len() as int)
        },
        _ => 0,
    }
}

/// The number of objects compiling the first `i` token trees of `b` puts on the heap.
pub open spec fn token_lits_before(b: Seq<Token>, i: int) -> nat
    decreases b, i,
{
    if i <= 0 || i > b.len() {
        0
    } else {
        proof { assert(decreases_to!(b => b[i - 1])); }
        token_lits_before(b, i - 1) + token_lit_count(b[i - 1])
    }
}

/// `c` is the code for the token tree `t` on the heap `h`, its objects put in the slots from
/// `pos` on, one after the other: words stay words, each number and each string becomes a
/// new object, marked `New`, in the next slot, templates stay templates, braces become the
/// block of their items' codes, in order, and square brackets an empty array.
pub open spec fn token_code(t: Token, c: Code, h: Seq<Option<VarPtr>>, pos: nat) -> bool
    decreases t,
{
    match t {
        Token::Id(s) => c matches Code::Id(r) && r@ == s@,
        Token::Number(f) => {
            &&& c matches Code::The(v) && v.ptr == pos
            &&& pos < h.len()
            &&& h[pos as int] == Some(VarPtr { mark: Mark::New, value: Value::Number(f) })
        },
        Token::Str(s) => {
            &&& c matches Code::The(v) && v.ptr == pos
            &&& pos < h.len()
            &&& h[pos as int] is Some
            &&& h[pos as int]->Some_0.mark == Mark::New
            &&& h[pos as int]->Some_0.value matches Value::Str(r) && r@ == s@
        },
        Token::Template(s) => c matches Code::Template(r) && r@ == s@,
        Token::The(x) => c == Code::The(x),
        Token::Large(b) => c matches Code::Block(d) && d@.len() == b@.len()
            && forall|i: int| 0 <= i < b@.len() ==> token_code(#[trigger] b@[i], d@[i], h, pos + token_lits_before(b@, i)),
        Token::Middle(_) => c matches Code::Array(d) && d@.len() == 0,
        _ => false,
    }
}

proof fn lemma_token_ml(t: Token, m: ML)
    requires
        ml_of(t, m),
        token_ok(t),
    ensures
        compilable(m),
        lit_count(m) == token_lit_count(t),
        forall|c: Code, h: Seq<Option<VarPtr>>, pos: nat| code_of(m, c, h, pos) ==> #[trigger] token_code(t, c, h, pos),
    decreases t, 0int,
{
    match t {
        Token::Large(b) => {
            let mb = m->Large_0;
            assert(decreases_to!(t => b@));
            lemma_token_seq(b@, mb@, b@.len() as int);
            assert forall|c: Code, h: Seq<Option<VarPtr>>, pos: nat| code_of(m, c, h, pos) implies #[trigger] token_code(t, c, h, pos) by {
                let d = c->Block_0;
                assert forall|i: int| 0 <= i < b@.len() implies token_code(#[trigger] b@[i], d@[i], h, pos + token_lits_before(b@, i)) by {
                    lemma_token_seq(b@, mb@, i);
                    assert(code_of(mb@[i], d@[i], h, pos + lits_before(mb@, i)));
                }
            }
        },
        _ => {},
    }
}

/// The first `i` trees of `b` and `mb` agree as `lemma_token_ml` says of one tree.
proof fn lemma_token_seq(b: Seq<Token>, mb: Seq<ML>, i: int)
    requires
        b.len() == mb.len(),
        0 <= i <= b.len(),
        forall|k: int| 0 <= k < b.len() ==> ml_of(#[trigger] b[k], mb[k]),
        forall|k: int| 0 <= k < b.len() ==> token_ok(#[trigger] b[k]),
    ensures
        lits_before(mb, i) == token_lits_before(b, i),
        forall|k: int| 0 <= k < i ==> compilable(#[trigger] mb[k]),
        forall|k: int, c: Code, h: Seq<Option<VarPtr>>, pos: nat| 0 <= k < i && code_of(mb[k], c, h, pos) ==> #[trigger] token_code(b[k], c, h, pos),
    decreases b, i,
{
    if i > 0 {
        lemma_token_seq(b, mb, i - 1);
        assert(decreases_to!(b => b[i - 1]));
        lemma_token_ml(b[i - 1], mb[i - 1]);
    }
}

/// Whether `t2c` can turn `text` into code.
pub fn can_compile(text: &Vec<Token>) -> (res: bool)
    ensures
        res == forall|i: int| 0 <= i < text@.len() ==> token_ok(#[trigger] text@[i]),
    decreases text,
{
    let mut i: usize = 0;
    while i < text.len()
        invariant
            i <= text@.len(),
            forall|k: int| 0 <= k < i ==> token_ok(#[trigger] text@[k]),
        decreases text@.len() - i,
    {
        proof { assert(decreases_to!(text => text@[i as int])); }
        if !token_can_compile(&text[i]) {
            return false;
        }
        i = i + 1;
    }
    true
}

fn token_can_compile(t: &Token) -> (res: bool)
    ensures
        res == token_ok(*t),
    decreases t,
{
    match t {
        Token::Number(_) | Token::The(_) | Token::Str(_) | Token::Template(_) => true,
        Token::Id(s) => word_to_ml(s) matches ML::Id(_),
        Token::Large(b) => can_compile(b),
        Token::Middle(b) => b.len() > 0,
        _ => false,
    }
}

/// Turns token trees into code: keywords are told apart, then each tree is compiled,
/// its numbers and strings put on the heap as new objects.
pub fn t2c(text: &Vec<Token>, vm: &mut Vm) -> (res: ErrSignal<Vec<Code>>)
    requires
        forall|i: int| 0 <= i < text@.len() ==> token_ok(#[trigger] text@[i]),
    ensures
        res matches Ok(codes) && codes@.len() == text@.len()
            && forall|i: int| 0 <= i < text@.len() ==> token_code(#[trigger] text@[i], codes@[i], final(vm).heap@,
                old(vm).heap@.len() + token_lits_before(text@, i)),
        final(vm).heap@.len() == old(vm).heap@.len() + token_lits_before(text@, text@.len() as int),
        grown(old(vm).heap@, final(vm).heap@),
        final(vm).same_roots(old(vm)),
        heap_wf(old(vm).heap@) ==> heap_wf(final(vm).heap@),
        old(vm).wf() ==> final(vm).wf(),
{
    let text_ml = match t2ml(vm, text) {
        Ok(m) => m,
        Err(e) => { return Err(e); },
    };
    proof { lemma_token_seq(text@, text_ml@, text@.len() as int); }
    let result = match tran_all(vm, &text_ml) {
        Ok(r) => r,
        Err(e) => { return Err(e); },
    };
    proof {
        assert forall|i: int| 0 <= i < text@.len() implies token_code(#[trigger] text@[i], result@[i], vm.heap@,
            old(vm).heap@.len() + token_lits_before(text@, i)) by {
            lemma_token_seq(text@, text_ml@, i);
            assert(code_of(text_ml@[i], result@[i], vm.heap@, old(vm).heap@.len() + lits_before(text_ml@, i)));
        }
    }
    Ok(result)
}

fn word_to_ml(s: &String) -> (res: ML)
    ensures
        match keyword(s@) {
            Some(k) => res == k,
            None => res matches ML::Id(r) && r@ == s@,
        },
{
    let w = s.as_str();
    if str_eq(w, "\\") { ML::Lambda }
    else if str_eq(w, "if") { ML::If }
    else if str_eq(w, "then") { ML::Then }
    else if str_eq(w, "else") { ML::Else }
    else if str_eq(w, "set") { ML::Assign }
    else if str_eq(w, "in") { ML::In }
    else if str_eq(w, "do") { ML::Do }
    else if str_eq(w, "end") { ML::End }
    else if str_eq(w, "match") { ML::Match }
    else { ML::Id(s.clone()) }
}

fn tokens_to_ml(vm: &Vm, b: &Vec<Token>) -> (res: Vec<ML>)
    ensures
        res@.len() == b@.len(),
        forall|i: int| 0 <= i < b@.len() ==> ml_of(#[trigger] b@[i], res@[i]),
    decreases b,
{
    let mut ml: Vec<ML> = Vec::new();
    let mut i: usize = 0;
    while i < b.len()
        invariant
            i <= b@.len(),
            ml@.len() == i,
            forall|k: int| 0 <= k < i ==> ml_of(#[trigger] b@[k], ml@[k]),
        decreases b@.len() - i,
    {
        proof { assert(decreases_to!(b => b@[i as int])); }
        let m = token_to_ml(vm, &b[i]);
        ml.push(m);
        i = i + 1;
    }
    ml
}

fn token_to_ml(vm: &Vm, token: &Token) -> (res: ML)
    ensures
        ml_of(*token, res),
    decreases token,
{
    match token {
        Token::Number(f) => ML::Number(*f),
        Token::The(c) => ML::The(*c),
        Token::Id(s) => word_to_ml(s),
        Token::Str(s) => ML::Str(s.clone()),
        Token::Template(s) => ML::Template(s.clone()),
        Token::Line(b) => ML::Line(tokens_to_ml(vm, b)),
        Token::Bracket(b) => ML::Bracket(tokens_to_ml(vm, b)),
        Token::Large(b) => ML::Large(tokens_to_ml(vm, b)),
        Token::Middle(b) => ML::Middle(tokens_to_ml(vm, b)),
    }
}

/// Tells the keywords of the token trees apart.
pub fn t2ml(vm: &Vm, text: &Vec<Token>) -> (res: ErrSignal<Vec<ML>>)
    ensures
        res matches Ok(m) && m@.len() == text@.len() && forall|i: int| 0 <= i < text@.len() ==> ml_of(#[trigger] text@[i], m@[i]),
{
    let mut result: Vec<ML> = Vec::new();
    let mut i: usize = 0;
    while i < text.len()
        invariant
            i <= text@.len(),
            result@.len() == i,
            forall|k: int| 0 <= k < i ==> ml_of(#[trigger] text@[k], result@[k]),
        decreases text@.len() - i,
    {
        let hc = token_to_ml(vm, &text[i]);
        result.push(hc);
        i = i + 1;
    }
    Ok(result)
}

} // verus!
