//! Splitting text into pieces, lines and words, and joining them back.

use vstd::prelude::*;

use crate::text::chars::{is_whitespace, white_space};

verus! {

/// The contents of a vector of character vectors.
pub open spec fn views_of(v: Seq<Vec<char>>) -> Seq<Seq<char>> {
    Seq::new(v.len(), |i: int| v[i]@)
}

pub proof fn lemma_views_push(v: Seq<Vec<char>>, x: Vec<char>)
    ensures
        views_of(v.push(x)) == views_of(v).push(x@),
{
    assert(views_of(v.push(x)) =~= views_of(v).push(x@));
}

// ── Splitting at a separator ───────────────────────────────────────

/// `str::split(sep)`: the pieces between separators (always one more
/// than the number of separators).
pub open spec fn split_on(s: Seq<char>, sep: char) -> Seq<Seq<char>>
    decreases s.len(),
{
    if s.len() == 0 {
        seq![seq![]]
    } else {
        let prev = split_on(s.drop_last(), sep);
        if s.last() == sep {
            prev.push(seq![])
        } else {
            prev.update(prev.len() - 1, prev.last().push(s.last()))
        }
    }
}

pub proof fn lemma_split_on_nonempty(s: Seq<char>, sep: char)
    ensures
        split_on(s, sep).len() >= 1,
    decreases s.len(),
{
    if s.len() > 0 {
        lemma_split_on_nonempty(s.drop_last(), sep);
    }
}

/// Splits `s` at every `sep`.
pub fn split_exec(s: &[char], sep: char) -> (r: Vec<Vec<char>>)
    ensures
        views_of(r@) == split_on(s@, sep),
{
    let mut r: Vec<Vec<char>> = Vec::new();
    let mut cur: Vec<char> = Vec::new();
    let mut i: usize = 0;
    assert(s@.take(0) =~= Seq::<char>::empty());
    while i < s.len()
        invariant
            i <= s@.len(),
            views_of(r@).push(cur@) == split_on(s@.take(i as int), sep),
        decreases s@.len() - i,
    {
        proof {
            lemma_split_on_nonempty(s@.take(i as int), sep);
            assert(s@.take(i + 1).drop_last() =~= s@.take(i as int));
        }
        let c = s[i];
        if c == sep {
            let done = cur;
            proof {
                lemma_views_push(r@, done);
            }
            r.push(done);
            cur = Vec::new();
            assert(views_of(r@).push(cur@) =~= split_on(s@.take(i as int), sep).push(seq![]));
        } else {
            cur.push(c);
            assert(views_of(r@).push(cur@) =~= split_on(s@.take(i as int), sep).update(
                split_on(s@.take(i as int), sep).len() - 1,
                split_on(s@.take(i as int), sep).last().push(c),
            ));
        }
        i += 1;
    }
    assert(s@.take(s@.len() as int) =~= s@);
    proof {
        lemma_views_push(r@, cur);
    }
    r.push(cur);
    r
}

/// Joins pieces with `sep` between them.
pub open spec fn join_with(pieces: Seq<Seq<char>>, sep: Seq<char>) -> Seq<char>
    decreases pieces.len(),
{
    if pieces.len() == 0 {
        seq![]
    } else if pieces.len() == 1 {
        pieces[0]
    } else {
        join_with(pieces.drop_last(), sep) + sep + pieces.last()
    }
}

/// Joins `pieces` with `sep` between them.
pub fn join_exec(pieces: &Vec<Vec<char>>, sep: &[char]) -> (r: Vec<char>)
    ensures
        r@ == join_with(views_of(pieces@), sep@),
{
    let mut out: Vec<char> = Vec::new();
    let mut k: usize = 0;
    while k < pieces.len()
        invariant
            k <= pieces@.len(),
            out@ == join_with(views_of(pieces@).take(k as int), sep@),
        decreases pieces@.len() - k,
    {
        let ghost before = out@;
        if k > 0 {
            append_chars(&mut out, sep);
        }
        append_chars(&mut out, pieces[k].as_slice());
        proof {
            let dv = views_of(pieces@);
            assert(dv.take(k + 1).drop_last() =~= dv.take(k as int));
            assert(dv[k as int] == pieces@[k as int]@);
            if k == 0 {
                assert(out@ =~= dv.take(1)[0]);
            } else {
                assert(out@ =~= before + sep@ + dv.take(k + 1).last());
            }
        }
        k += 1;
    }
    assert(views_of(pieces@).take(pieces@.len() as int) =~= views_of(pieces@));
    out
}

/// Appends the elements of `v` to `out`.
pub fn append_chars(out: &mut Vec<char>, v: &[char])
    ensures
        final(out)@ == old(out)@ + v@,
{
    let mut i: usize = 0;
    while i < v.len()
        invariant
            i <= v@.len(),
            out@ == old(out)@ + v@.take(i as int),
        decreases v@.len() - i,
    {
        out.push(v[i]);
        i += 1;
        assert(out@ =~= old(out)@ + v@.take(i as int));
    }
    assert(v@.take(v@.len() as int) =~= v@);
}

// ── Lines ──────────────────────────────────────────────────────────

/// `s` without one trailing carriage return.
pub open spec fn strip_cr(s: Seq<char>) -> Seq<char> {
    if s.len() > 0 && s.last() == '\r' {
        s.drop_last()
    } else {
        s
    }
}

/// `str::lines`: the pieces between line feeds, without a final empty
/// piece; a carriage return before a line feed belongs to the line ending.
pub open spec fn lines_of(s: Seq<char>) -> Seq<Seq<char>> {
    let p = split_on(s, '\n');
    if p.last().len() == 0 {
        Seq::new((p.len() - 1) as nat, |i: int| strip_cr(p[i]))
    } else {
        Seq::new(p.len(), |i: int| if i < p.len() - 1 { strip_cr(p[i]) } else { p[i] })
    }
}

fn strip_cr_exec(v: Vec<char>) -> (r: Vec<char>)
    ensures
        r@ == strip_cr(v@),
{
    let mut v = v;
    if v.len() > 0 && v[v.len() - 1] == '\r' {
        v.pop();
    }
    v
}

/// The lines of `s`, as `str::lines` yields them.
pub fn lines_exec(s: &[char]) -> (r: Vec<Vec<char>>)
    ensures
        views_of(r@) == lines_of(s@),
{
    let pieces = split_exec(s, '\n');
    proof {
        lemma_split_on_nonempty(s@, '\n');
    }
    let n = pieces.len();
    let last_empty = pieces[n - 1].len() == 0;
    assert(views_of(pieces@)[n - 1] == pieces@[n - 1]@);
    let count = if last_empty {
        n - 1
    } else {
        n
    };
    let mut r: Vec<Vec<char>> = Vec::new();
    let mut i: usize = 0;
    while i < count
        invariant
            n == pieces@.len(),
            views_of(pieces@) == split_on(s@, '\n'),
            count <= n,
            last_empty == (split_on(s@, '\n').last().len() == 0),
            count == if last_empty {
                n - 1
            } else {
                n as int
            },
            i <= count,
            views_of(r@) =~= lines_of(s@).take(i as int),
        decreases count - i,
    {
        let piece = copy_chars(pieces[i].as_slice());
        assert(views_of(pieces@)[i as int] == pieces@[i as int]@);
        let line = if i + 1 < n {
            strip_cr_exec(piece)
        } else {
            piece
        };
        proof {
            lemma_views_push(r@, line);
        }
        r.push(line);
        i += 1;
    }
    r
}

/// A copy of `v`.
pub fn copy_chars(v: &[char]) -> (r: Vec<char>)
    ensures
        r@ == v@,
{
    let mut r: Vec<char> = Vec::new();
    append_chars(&mut r, v);
    r
}

// ── Words ──────────────────────────────────────────────────────────

/// Scanning the first `k` characters for words: the completed words and
/// the word in progress.
pub open spec fn words_state(s: Seq<char>, k: nat) -> (Seq<Seq<char>>, Seq<char>)
    decreases k,
{
    if k == 0 {
        (seq![], seq![])
    } else {
        let (ws, cur) = words_state(s, (k - 1) as nat);
        let c = s[k - 1];
        if white_space(c) {
            (
                if cur.len() > 0 {
                    ws.push(cur)
                } else {
                    ws
                },
                seq![],
            )
        } else {
            (ws, cur.push(c))
        }
    }
}

/// `str::split_whitespace`: the maximal runs of characters that are not
/// white space.
pub open spec fn words_of(s: Seq<char>) -> Seq<Seq<char>> {
    let (ws, cur) = words_state(s, s.len());
    if cur.len() > 0 {
        ws.push(cur)
    } else {
        ws
    }
}

/// The words of `s`.
pub fn words_exec(s: &[char]) -> (r: Vec<Vec<char>>)
    ensures
        views_of(r@) == words_of(s@),
{
    let mut r: Vec<Vec<char>> = Vec::new();
    let mut cur: Vec<char> = Vec::new();
    let mut i: usize = 0;
    while i < s.len()
        invariant
            i <= s@.len(),
            words_state(s@, i as nat) == (views_of(r@), cur@),
        decreases s@.len() - i,
    {
        let c = s[i];
        if is_whitespace(c) {
            if cur.len() > 0 {
                let w = cur;
                proof {
                    lemma_views_push(r@, w);
                }
                r.push(w);
                cur = Vec::new();
            }
        } else {
            cur.push(c);
        }
        assert(views_of(r@) =~= words_state(s@, (i + 1) as nat).0);
        i += 1;
    }
    if cur.len() > 0 {
        proof {
            lemma_views_push(r@, cur);
        }
        r.push(cur);
    }
    r
}

/// Every word is non-empty and holds no white space.
pub proof fn lemma_words_clean(s: Seq<char>)
    ensures
        forall|i: int| 0 <= i < words_of(s).len() ==> #[trigger] words_of(s)[i].len() > 0,
        forall|i: int, j: int|
            0 <= i < words_of(s).len() && 0 <= j < words_of(s)[i].len() ==> !white_space(
                #[trigger] words_of(s)[i][j],
            ),
{
    lemma_words_state_clean(s, s.len());
}

proof fn lemma_words_state_clean(s: Seq<char>, k: nat)
    requires
        k <= s.len(),
    ensures
        ({
            let (ws, cur) = words_state(s, k);
            &&& forall|i: int| 0 <= i < ws.len() ==> #[trigger] ws[i].len() > 0
            &&& forall|i: int, j: int|
                0 <= i < ws.len() && 0 <= j < ws[i].len() ==> !white_space(#[trigger] ws[i][j])
            &&& forall|j: int| 0 <= j < cur.len() ==> !white_space(#[trigger] cur[j])
        }),
    decreases k,
{
    if k > 0 {
        lemma_words_state_clean(s, (k - 1) as nat);
        let (ws, cur) = words_state(s, (k - 1) as nat);
        let c = s[k - 1];
        if !white_space(c) {
            assert forall|j: int| 0 <= j < cur.push(c).len() implies !white_space(
                #[trigger] cur.push(c)[j],
            ) by {
                if j < cur.len() {
                    assert(cur.push(c)[j] == cur[j]);
                }
            }
        } else if cur.len() > 0 {
            assert forall|i: int, j: int|
                0 <= i < ws.push(cur).len() && 0 <= j < ws.push(cur)[i].len() implies !white_space(
                #[trigger] ws.push(cur)[i][j],
            ) by {
                if i < ws.len() {
                    assert(ws.push(cur)[i] == ws[i]);
                }
            }
        }
    }
}

proof fn lemma_words_state_prefix(a: Seq<char>, b: Seq<char>, k: nat)
    requires
        k <= a.len(),
    ensures
        words_state(a + b, k) == words_state(a, k),
    decreases k,
{
    if k > 0 {
        lemma_words_state_prefix(a, b, (k - 1) as nat);
        assert((a + b)[k - 1] == a[k - 1]);
    }
}

proof fn lemma_words_state_word(s: Seq<char>, start: nat, j: nat)
    requires
        start + j <= s.len(),
        forall|m: int| start <= m < start + j ==> !white_space(#[trigger] s[m]),
    ensures
        words_state(s, start + j) == (words_state(s, start).0, words_state(s, start).1
            + s.subrange(start as int, (start + j) as int)),
    decreases j,
{
    if j == 0 {
        assert(words_state(s, start).1 + s.subrange(start as int, start as int) =~= words_state(
            s,
            start,
        ).1);
    } else {
        lemma_words_state_word(s, start, (j - 1) as nat);
        assert(!white_space(s[start + j - 1]));
        assert(words_state(s, start).1 + s.subrange(start as int, (start + j) as int) =~= (words_state(
            s,
            start,
        ).1 + s.subrange(start as int, start + j - 1)).push(s[start + j - 1]));
    }
}

/// A word: non-empty, without white space.
pub open spec fn clean_word(w: Seq<char>) -> bool {
    w.len() > 0 && forall|m: int| 0 <= m < w.len() ==> !white_space(#[trigger] w[m])
}

proof fn lemma_words_of_join(ws: Seq<Seq<char>>, n: nat)
    requires
        1 <= n <= ws.len(),
        forall|i: int| 0 <= i < ws.len() ==> clean_word(#[trigger] ws[i]),
    ensures
        ({
            let j = join_with(ws.take(n as int), seq![' ']);
            words_state(j, j.len()) == (ws.take(n - 1), ws[n - 1])
        }),
    decreases n,
{
    let j = join_with(ws.take(n as int), seq![' ']);
    if n == 1 {
        assert(j == ws[0]);
        assert(clean_word(ws[0]));
        lemma_words_state_word(j, 0, j.len());
        assert(j.subrange(0, j.len() as int) =~= j);
        assert(seq![] + j =~= j);
        assert(ws.take(0) =~= Seq::<Seq<char>>::empty());
    } else {
        lemma_words_of_join(ws, (n - 1) as nat);
        let p = join_with(ws.take(n - 1), seq![' ']);
        let w = ws[n - 1];
        assert(ws.take(n as int).drop_last() =~= ws.take(n - 1));
        assert(ws.take(n as int).last() == w);
        assert(j == p + seq![' '] + w);
        let ps = p + seq![' '];
        assert(j == ps + w);
        lemma_words_state_prefix(ps, w, p.len());
        lemma_words_state_prefix(p, seq![' '], p.len());
        assert(ps[p.len() as int] == ' ');
        let st1 = words_state(ps, ps.len());
        assert(ws[n - 2].len() > 0) by {
            assert(clean_word(ws[n - 2]));
        }
        assert(ws.take(n - 2).push(ws[n - 2]) =~= ws.take(n - 1));
        lemma_words_state_prefix(ps, w, ps.len());
        assert(clean_word(w));
        assert forall|m: int| ps.len() <= m < ps.len() + w.len() implies !white_space(
            #[trigger] j[m],
        ) by {
            assert(j[m] == w[m - ps.len()]);
        }
        lemma_words_state_word(j, ps.len(), w.len());
        assert(j.subrange(ps.len() as int, (ps.len() + w.len()) as int) =~= w);
        assert(seq![] + w =~= w);
    }
}

/// The words of words joined by single spaces are those words.
pub proof fn lemma_words_of_joined(ws: Seq<Seq<char>>)
    requires
        forall|i: int| 0 <= i < ws.len() ==> clean_word(#[trigger] ws[i]),
    ensures
        words_of(join_with(ws, seq![' '])) == ws,
{
    if ws.len() == 0 {
    } else {
        lemma_words_of_join(ws, ws.len());
        assert(ws.take(ws.len() as int) =~= ws);
        assert(clean_word(ws[ws.len() - 1]));
        assert(ws.take(ws.len() - 1).push(ws[ws.len() - 1]) =~= ws);
    }
}

/// Joining the words of a text by single spaces is idempotent.
pub proof fn lemma_join_words_idempotent(s: Seq<char>)
    ensures
        join_with(words_of(join_with(words_of(s), seq![' '])), seq![' ']) == join_with(
            words_of(s),
            seq![' '],
        ),
{
    lemma_words_clean(s);
    let ws = words_of(s);
    assert forall|i: int| 0 <= i < ws.len() implies clean_word(#[trigger] ws[i]) by {
        assert(ws[i].len() > 0);
        assert forall|m: int| 0 <= m < ws[i].len() implies !white_space(#[trigger] ws[i][m]) by {}
    }
    lemma_words_of_joined(ws);
}

} // verus!
