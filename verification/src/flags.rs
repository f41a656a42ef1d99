//! Deduplication of compiler command-line flags.
//!
//! A flag string is split on white space; `-Z foo` counts as one flag
//! `-Zfoo`; a flag may take its value either after `=` or as the following
//! word; later occurrences of a key replace earlier ones; words that belong
//! to no flag are kept together in order. The result renders the surviving
//! flags sorted by key, which keeps the output stable across runs.
use vstd::prelude::*;
use crate::text::{
    char_is_ws, chars_eq, chars_to_string, is_ws, lex_lt, lex_lt_chars, str_to_chars,
};

verus! {

/// Tokens of `s` from position `i` on, with `cur` the partial token read
/// so far: maximal runs of non-white-space characters.
pub open spec fn spec_tokens_acc(s: Seq<char>, i: int, cur: Seq<char>) -> Seq<Seq<char>>
    decreases s.len() - i when 0 <= i <= s.len()
{
    if i >= s.len() {
        if cur.len() == 0 {
            Seq::empty()
        } else {
            seq![cur]
        }
    } else if is_ws(s[i]) {
        if cur.len() == 0 {
            spec_tokens_acc(s, i + 1, Seq::empty())
        } else {
            seq![cur] + spec_tokens_acc(s, i + 1, Seq::empty())
        }
    } else {
        spec_tokens_acc(s, i + 1, cur.push(s[i]))
    }
}

/// The white-space-separated tokens of `s`.
pub open spec fn spec_tokens(s: Seq<char>) -> Seq<Seq<char>> {
    spec_tokens_acc(s, 0, Seq::empty())
}

/// Whether a token begins with `-`.
pub open spec fn starts_dash(t: Seq<char>) -> bool {
    t.len() >= 1 && t[0] == '-'
}

/// How many `=` characters a token holds.
pub open spec fn eq_count(t: Seq<char>) -> int
    decreases t.len(),
{
    if t.len() == 0 {
        0
    } else {
        eq_count(t.drop_last()) + if t.last() == '=' {
            1int
        } else {
            0int
        }
    }
}

/// Index of the first `=` of `t`, or `t.len()` when there is none.
pub open spec fn eq_pos(t: Seq<char>) -> int
    decreases t.len(),
{
    if t.len() == 0 {
        0
    } else if t.first() == '=' {
        0
    } else {
        1 + eq_pos(t.drop_first())
    }
}

/// Whether the token at `i` merges with its successor: a two-character
/// `-x` flag followed by a word that is not itself a flag, as in `-Z foo`.
pub open spec fn merge_here(toks: Seq<Seq<char>>, i: int) -> bool {
    &&& toks[i].len() == 2
    &&& i + 1 < toks.len()
    &&& !starts_dash(toks[i + 1])
    &&& toks[i][0] == '-'
    &&& toks[i][1] != '-'
}

/// The token at `i` after merging.
pub open spec fn merged_tok(toks: Seq<Seq<char>>, i: int) -> Seq<char> {
    if merge_here(toks, i) {
        toks[i] + toks[i + 1]
    } else {
        toks[i]
    }
}

/// The position after the (possibly merged) token at `i`.
pub open spec fn after_merge(toks: Seq<Seq<char>>, i: int) -> int {
    if merge_here(toks, i) {
        i + 2
    } else {
        i + 1
    }
}

/// Inserts `(k, v)` into a key-sorted flag table, replacing the value of an
/// existing key: the later occurrence wins.
pub open spec fn insert_flag(
    flags: Seq<(Seq<char>, Seq<char>)>,
    k: Seq<char>,
    v: Seq<char>,
) -> Seq<(Seq<char>, Seq<char>)>
    decreases flags.len(),
{
    if flags.len() == 0 {
        seq![(k, v)]
    } else if lex_lt(k, flags.first().0) {
        seq![(k, v)] + flags
    } else if k == flags.first().0 {
        seq![(k, v)] + flags.drop_first()
    } else {
        seq![flags.first()] + insert_flag(flags.drop_first(), k, v)
    }
}

/// Folds the tokens from `i` on into the naked-word run and the flag
/// table, as the deduplicator reads them.
pub open spec fn spec_fold(
    toks: Seq<Seq<char>>,
    i: int,
    naked: Seq<char>,
    flags: Seq<(Seq<char>, Seq<char>)>,
) -> (Seq<char>, Seq<(Seq<char>, Seq<char>)>)
    decreases toks.len() - i when 0 <= i <= toks.len()
{
    if i >= toks.len() {
        (naked, flags)
    } else {
        let b = merged_tok(toks, i);
        let j = after_merge(toks, i);
        if starts_dash(b) {
            if eq_count(b) > 0 {
                spec_fold(
                    toks,
                    j,
                    naked,
                    insert_flag(flags, b.take(eq_pos(b) + 1), b.skip(eq_pos(b) + 1)),
                )
            } else if j < toks.len() && !starts_dash(toks[j]) {
                spec_fold(toks, j + 1, naked, insert_flag(flags, b, toks[j]))
            } else {
                spec_fold(toks, j, naked, insert_flag(flags, b, Seq::empty()))
            }
        } else {
            (spec_fold(toks, j, naked + seq![' '] + b, flags))
        }
    }
}

/// The inputs the deduplicator accepts: no flag may hold more than one
/// `=`, since a flag with several cannot be split into key and value.
pub open spec fn fold_ok(toks: Seq<Seq<char>>, i: int) -> bool
    decreases toks.len() - i when 0 <= i <= toks.len()
{
    if i >= toks.len() {
        true
    } else {
        let b = merged_tok(toks, i);
        let j = after_merge(toks, i);
        if starts_dash(b) {
            if eq_count(b) > 0 {
                eq_count(b) == 1 && fold_ok(toks, j)
            } else if j < toks.len() && !starts_dash(toks[j]) {
                fold_ok(toks, j + 1)
            } else {
                fold_ok(toks, j)
            }
        } else {
            fold_ok(toks, j)
        }
    }
}

/// Renders the flag table from entry `i` on: a space, the key, and — for a
/// nonempty value — the value, separated by a space unless the key already
/// ends in `=`.
pub open spec fn render_flags(flags: Seq<(Seq<char>, Seq<char>)>, i: int) -> Seq<char>
    decreases flags.len() - i when 0 <= i <= flags.len()
{
    if i >= flags.len() {
        Seq::empty()
    } else {
        let kv = flags[i];
        seq![' '] + kv.0 + (if kv.1.len() > 0 {
            (if kv.0.len() > 0 && kv.0.last() == '=' {
                Seq::<char>::empty()
            } else {
                seq![' ']
            }) + kv.1
        } else {
            Seq::<char>::empty()
        }) + render_flags(flags, i + 1)
    }
}

/// What deduplication of `s` yields: the naked words in order, then every
/// surviving flag sorted by key.
pub open spec fn spec_dedup_flags(s: Seq<char>) -> Seq<char> {
    let state = spec_fold(spec_tokens(s), 0, Seq::empty(), Seq::empty());
    state.0 + render_flags(state.1, 0)
}

/// The token views of a token vector.
pub open spec fn tok_views(ts: Seq<Vec<char>>) -> Seq<Seq<char>> {
    ts.map_values(|t: Vec<char>| t@)
}

/// The entry views of a flag-table vector.
pub open spec fn flag_views(fs: Seq<(Vec<char>, Vec<char>)>) -> Seq<(Seq<char>, Seq<char>)> {
    fs.map_values(|p: (Vec<char>, Vec<char>)| (p.0@, p.1@))
}

/// Splits `chars` into white-space-separated tokens.
fn tokenize(chars: &Vec<char>) -> (r: Vec<Vec<char>>)
    ensures
        tok_views(r@) == spec_tokens(chars@),
{
    let len = chars.len();
    let mut out: Vec<Vec<char>> = Vec::new();
    let mut cur: Vec<char> = Vec::new();
    let mut i: usize = 0;
    while i < len
        invariant
            0 <= i <= len,
            len == chars@.len(),
            spec_tokens(chars@) == tok_views(out@) + spec_tokens_acc(chars@, i as int, cur@),
        decreases len - i,
    {
        proof {
            if cur@.len() == 0 {
                assert(cur@ =~= Seq::<char>::empty());
            }
        }
        let c = chars[i];
        if char_is_ws(c) {
            if cur.len() > 0 {
                let ghost out0 = out@;
                let ghost cur0 = cur@;
                let done = cur;
                cur = Vec::new();
                out.push(done);
                proof {
                    assert(tok_views(out@) =~= tok_views(out0).push(cur0));
                    assert(tok_views(out0) + spec_tokens_acc(chars@, i as int, cur0) =~= tok_views(
                        out@,
                    ) + spec_tokens_acc(chars@, i + 1, Seq::<char>::empty()));
                }
            }
        } else {
            cur.push(c);
        }
        i = i + 1;
    }
    if cur.len() > 0 {
        let ghost out0 = out@;
        let ghost cur0 = cur@;
        out.push(cur);
        proof {
            assert(tok_views(out@) =~= tok_views(out0).push(cur0));
            assert(tok_views(out0) + spec_tokens_acc(chars@, len as int, cur0) =~= tok_views(
                out@,
            ));
        }
    } else {
        proof {
            assert(tok_views(out@) + spec_tokens_acc(chars@, len as int, cur@) =~= tok_views(
                out@,
            ));
        }
    }
    out
}

/// The first `=` is where `eq_pos` says.
proof fn lemma_eq_pos_found(t: Seq<char>, k: int)
    requires
        0 <= k < t.len(),
        t[k] == '=',
        forall|j: int| 0 <= j < k ==> t[j] != '=',
    ensures
        eq_pos(t) == k,
    decreases k,
{
    if k > 0 {
        lemma_eq_pos_found(t.drop_first(), k - 1);
    }
}

/// A token with an `=` somewhere has a positive count.
proof fn lemma_eq_count_pos(t: Seq<char>, k: int)
    requires
        0 <= k < t.len(),
        t[k] == '=',
    ensures
        eq_count(t) >= 1,
    decreases t.len(),
{
    if k == t.len() - 1 {
        lemma_eq_count_nonneg(t.drop_last());
    } else {
        lemma_eq_count_pos(t.drop_last(), k);
        lemma_eq_count_nonneg(t.drop_last());
    }
}

/// Counts never go negative.
proof fn lemma_eq_count_nonneg(t: Seq<char>)
    ensures
        eq_count(t) >= 0,
    decreases t.len(),
{
    if t.len() > 0 {
        lemma_eq_count_nonneg(t.drop_last());
    }
}

/// A token with no `=` has count zero.
proof fn lemma_eq_count_zero(t: Seq<char>)
    requires
        forall|j: int| 0 <= j < t.len() ==> t[j] != '=',
    ensures
        eq_count(t) == 0,
    decreases t.len(),
{
    if t.len() > 0 {
        lemma_eq_count_zero(t.drop_last());
    }
}

/// A key never sorts before itself.
proof fn lemma_lex_lt_irrefl(a: Seq<char>)
    ensures
        !lex_lt(a, a),
    decreases a.len(),
{
    if a.len() > 0 {
        lemma_lex_lt_irrefl(a.drop_first());
    }
}

/// Where the scan stopped is where `insert_flag` lands: the keys before
/// `m` sort before `k`, so the insertion happens at `m`, replacing an
/// equal key there.
proof fn lemma_insert_flag_at(fv: Seq<(Seq<char>, Seq<char>)>, k: Seq<char>, v: Seq<char>, m: int)
    requires
        0 <= m <= fv.len(),
        forall|j: int| 0 <= j < m ==> !lex_lt(k, (#[trigger] fv[j]).0) && k != fv[j].0,
    ensures
        m < fv.len() && k == fv[m].0 ==> insert_flag(fv, k, v) == fv.update(m, (k, v)),
        (m == fv.len() || lex_lt(k, fv[m].0)) ==> insert_flag(fv, k, v) == fv.subrange(0, m)
            + seq![(k, v)] + fv.subrange(m, fv.len() as int),
    decreases m,
{
    if m == 0 {
        if fv.len() > 0 && k == fv[0].0 {
            lemma_lex_lt_irrefl(k);
            assert(insert_flag(fv, k, v) =~= fv.update(0, (k, v)));
        }
        if fv.len() == 0 || lex_lt(k, fv[0].0) {
            assert(insert_flag(fv, k, v) =~= fv.subrange(0, 0) + seq![(k, v)] + fv.subrange(
                0,
                fv.len() as int,
            ));
        }
    } else {
        let rest = fv.drop_first();
        assert forall|j: int| 0 <= j < m - 1 implies !lex_lt(k, (#[trigger] rest[j]).0) && k
            != rest[j].0 by {
            assert(rest[j] == fv[j + 1]);
        }
        lemma_insert_flag_at(rest, k, v, m - 1);
        if m < fv.len() && k == fv[m].0 {
            assert(rest[m - 1] == fv[m]);
            assert(insert_flag(fv, k, v) =~= fv.update(m, (k, v)));
        }
        if m == fv.len() || lex_lt(k, fv[m].0) {
            if m < fv.len() {
                assert(rest[m - 1] == fv[m]);
            }
            assert(insert_flag(fv, k, v) =~= fv.subrange(0, m) + seq![(k, v)] + fv.subrange(
                m,
                fv.len() as int,
            ));
        }
    }
}

/// Inserts `(k, v)` into the sorted flag table, replacing an equal key.
fn insert_flag_vec(flags: &mut Vec<(Vec<char>, Vec<char>)>, k: Vec<char>, v: Vec<char>)
    ensures
        flag_views(final(flags)@) == insert_flag(flag_views(old(flags)@), k@, v@),
{
    let len = flags.len();
    let mut m: usize = 0;
    while m < len && !lex_lt_chars(&k, &flags[m].0) && !chars_eq(&k, &flags[m].0)
        invariant
            0 <= m <= len,
            len == flags@.len(),
            forall|j: int|
                0 <= j < m ==> !lex_lt(k@, (#[trigger] flags@[j]).0@) && k@ != flags@[j].0@,
        decreases len - m,
    {
        m = m + 1;
    }
    proof {
        let fv = flag_views(flags@);
        assert forall|j: int| 0 <= j < m implies !lex_lt(k@, (#[trigger] fv[j]).0) && k@
            != fv[j].0 by {
            assert(fv[j] == (flags@[j].0@, flags@[j].1@));
        }
        lemma_insert_flag_at(fv, k@, v@, m as int);
    }
    let ghost fv0 = flag_views(flags@);
    if m < len && chars_eq(&k, &flags[m].0) {
        let _ = flags.remove(m);
        flags.insert(m, (k, v));
        proof {
            assert(flag_views(flags@) =~= fv0.update(m as int, (k@, v@)));
        }
    } else {
        flags.insert(m, (k, v));
        proof {
            assert(flag_views(flags@) =~= fv0.subrange(0, m as int) + seq![(k@, v@)]
                + fv0.subrange(m as int, fv0.len() as int));
        }
    }
}

/// Finds the first `=` of `b`, if any.
fn find_eq(b: &Vec<char>) -> (r: Option<usize>)
    ensures
        match r {
            Some(p) => p < b@.len() && eq_pos(b@) == p && eq_count(b@) >= 1,
            None => eq_count(b@) == 0,
        },
{
    let len = b.len();
    let mut i: usize = 0;
    while i < len
        invariant
            0 <= i <= len,
            len == b@.len(),
            forall|j: int| 0 <= j < i ==> b@[j] != '=',
        decreases len - i,
    {
        if b[i] == '=' {
            proof {
                lemma_eq_pos_found(b@, i as int);
                lemma_eq_count_pos(b@, i as int);
            }
            return Some(i);
        }
        i = i + 1;
    }
    proof {
        lemma_eq_count_zero(b@);
    }
    None
}

/// Removes duplicate flags from a flag string for the compiler: the last
/// value of each key wins, `-Z foo` counts as `-Zfoo`, words that belong to
/// no flag are kept, and the surviving flags come out sorted by key. The
/// input may not hold a flag with more than one `=`.
pub fn dedup_flags(flag_str: &str) -> (r: String)
    requires
        fold_ok(spec_tokens(flag_str@), 0),
    ensures
        r@ == spec_dedup_flags(flag_str@),
{
    let chars = str_to_chars(flag_str);
    let toks = tokenize(&chars);
    let ghost tv = tok_views(toks@);
    let tlen = toks.len();
    let mut naked: Vec<char> = Vec::new();
    let mut flags: Vec<(Vec<char>, Vec<char>)> = Vec::new();
    proof {
        assert(naked@ =~= Seq::<char>::empty());
        assert(flag_views(flags@) =~= Seq::<(Seq<char>, Seq<char>)>::empty());
    }
    let mut i: usize = 0;
    while i < tlen
        invariant
            0 <= i <= tlen,
            tlen == toks@.len(),
            tv == tok_views(toks@),
            tv.len() == tlen,
            fold_ok(tv, i as int),
            spec_fold(tv, 0, Seq::empty(), Seq::empty()) == spec_fold(
                tv,
                i as int,
                naked@,
                flag_views(flags@),
            ),
        decreases tlen - i,
    {
        proof {
            assert(tv[i as int] == toks@[i as int]@);
            if i + 1 < tlen {
                assert(tv[i + 1] == toks@[i + 1]@);
            }
        }
        // Merge `-x word` into one token.
        let merged: bool = toks[i].len() == 2 && i + 1 < tlen && !(toks[i + 1].len() >= 1
            && toks[i + 1][0] == '-') && toks[i][0] == '-' && toks[i][1] != '-';
        let mut b: Vec<char> = vstd::slice::slice_to_vec(toks[i].as_slice());
        let j: usize;
        if merged {
            let mut second = vstd::slice::slice_to_vec(toks[i + 1].as_slice());
            b.append(&mut second);
            j = i + 2;
        } else {
            j = i + 1;
        }
        proof {
            assert(merged == merge_here(tv, i as int));
            assert(b@ == merged_tok(tv, i as int));
            assert(j == after_merge(tv, i as int));
        }
        if b.len() >= 1 && b[0] == '-' {
            match find_eq(&b) {
                Some(p) => {
                    let key = vstd::slice::slice_to_vec(vstd::slice::slice_subrange(
                        b.as_slice(),
                        0,
                        p + 1,
                    ));
                    let value = vstd::slice::slice_to_vec(vstd::slice::slice_subrange(
                        b.as_slice(),
                        p + 1,
                        b.len(),
                    ));
                    proof {
                        assert(key@ =~= b@.take(eq_pos(b@) + 1));
                        assert(value@ =~= b@.skip(eq_pos(b@) + 1));
                    }
                    insert_flag_vec(&mut flags, key, value);
                    i = j;
                },
                None => {
                    if j < tlen && !(toks[j].len() >= 1 && toks[j][0] == '-') {
                        proof {
                            assert(tv[j as int] == toks@[j as int]@);
                        }
                        let value = vstd::slice::slice_to_vec(toks[j].as_slice());
                        insert_flag_vec(&mut flags, b, value);
                        i = j + 1;
                    } else {
                        proof {
                            if j < tlen {
                                assert(tv[j as int] == toks@[j as int]@);
                            }
                        }
                        insert_flag_vec(&mut flags, b, Vec::new());
                        i = j;
                    }
                },
            }
        } else {
            let ghost naked0 = naked@;
            naked.push(' ');
            let mut rest = b;
            naked.append(&mut rest);
            proof {
                assert(naked@ =~= naked0 + seq![' '] + merged_tok(tv, i as int));
            }
            i = j;
        }
    }
    let ghost folded = spec_fold(tv, 0, Seq::empty(), Seq::empty());
    proof {
        assert(folded.0 == naked@);
        assert(folded.1 == flag_views(flags@));
    }
    // Render: the naked words, then the sorted flags.
    let flen = flags.len();
    let mut out = naked;
    let mut m: usize = 0;
    while m < flen
        invariant
            0 <= m <= flen,
            flen == flags@.len(),
            folded.1 == flag_views(flags@),
            out@ + render_flags(folded.1, m as int) == folded.0 + render_flags(folded.1, 0),
        decreases flen - m,
    {
        proof {
            assert(folded.1[m as int] == (flags@[m as int].0@, flags@[m as int].1@));
        }
        let ghost out0 = out@;
        out.push(' ');
        let mut key = vstd::slice::slice_to_vec(flags[m].0.as_slice());
        let klen = key.len();
        out.append(&mut key);
        if flags[m].1.len() > 0 {
            if !(klen >= 1 && *vstd::slice::slice_index_get(flags[m].0.as_slice(), klen - 1)
                == '=') {
                out.push(' ');
            }
            let mut value = vstd::slice::slice_to_vec(flags[m].1.as_slice());
            out.append(&mut value);
        }
        proof {
            let kv = folded.1[m as int];
            assert(out@ =~= out0 + (seq![' '] + kv.0 + (if kv.1.len() > 0 {
                (if kv.0.len() > 0 && kv.0.last() == '=' {
                    Seq::<char>::empty()
                } else {
                    seq![' ']
                }) + kv.1
            } else {
                Seq::<char>::empty()
            })));
            assert(out0 + (seq![' '] + kv.0 + (if kv.1.len() > 0 {
                (if kv.0.len() > 0 && kv.0.last() == '=' {
                    Seq::<char>::empty()
                } else {
                    seq![' ']
                }) + kv.1
            } else {
                Seq::<char>::empty()
            })) + render_flags(folded.1, m + 1) =~= out0 + render_flags(folded.1, m as int));
        }
        m = m + 1;
    }
    proof {
        assert(out@ =~= folded.0 + render_flags(folded.1, 0));
        assert(out@ == spec_dedup_flags(flag_str@));
    }
    chars_to_string(&out)
}

} // verus!
