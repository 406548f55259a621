//! Normalization of raw crash messages. An ordered list of three rewrite
//! rules is tried; the first one that matches and changes the string wins,
//! and a string no rule changes is returned unchanged.
//!
//! The rules, in order:
//! 1. chained context: `...'<summary>: ...message: "<detail>"...` becomes
//!    `<summary>. (<detail>)`;
//! 2. user tag: `...User("<summary>")...` becomes `<summary>`;
//! 3. plain panic envelope: `panicked at '<summary>', <location>` becomes
//!    `<summary>`.
//!
//! The match positions below spell out which occurrence each rule picks,
//! mirroring greedy and lazy repetition: the summary of rule 1 starts after
//! the last eligible `'` and ends at the first `: ` after it, and its detail
//! ends at the last eligible `"`. Rule 1 is knowingly lossy when the summary
//! itself contains a literal `: `. The location alphabet of rule 3 is the
//! ASCII word, digit, `-`, `/`, `.` and `:` characters; a location holding
//! other characters is treated as non-matching.

use vstd::prelude::*;
use crate::text::{occurs_at, str_chars, chars_to_string, char_vec_eq, occurs_check, lfind_pat,
    rfind_pat, push_range, push_all, copy_chars};

verus! {

/// No raw newline: every rule consumes the whole string with classes that
/// exclude newlines, so a message holding one matches no rule.
pub open spec fn no_newline(s: Seq<char>) -> bool {
    forall|k: int| 0 <= k < s.len() ==> s[k] != '\n'
}

/// A `: ` separator occurs at `p`.
pub open spec fn colon_at(s: Seq<char>, p: int) -> bool {
    occurs_at(s, p, ": "@)
}

/// `j` is the last `"` leaving at least one character after it.
pub open spec fn is_last_quote(s: Seq<char>, j: int) -> bool {
    &&& 0 <= j <= s.len() - 2
    &&& s[j] == '"'
    &&& forall|k: int| j < k <= s.len() - 2 ==> s[k] != '"'
}

/// The marker that introduces the nested detail of rule 1.
pub open spec fn detail_marker() -> Seq<char> {
    "message: \""@
}

/// `m` is the last occurrence of the detail marker that leaves a nonempty
/// detail before the closing quote `j`.
pub open spec fn is_last_marker(s: Seq<char>, m: int, j: int) -> bool {
    &&& occurs_at(s, m, detail_marker())
    &&& m + 11 <= j
    &&& forall|k: int| m < k && occurs_at(s, k, detail_marker()) ==> k + 11 > j
}

/// Some `: ` occurs within `[lo, hi]`.
pub open spec fn has_colon_in(s: Seq<char>, lo: int, hi: int) -> bool {
    exists|p: int| lo <= p <= hi && colon_at(s, p)
}

/// `i` is the last `'` (not at the start) that is still followed by a `: `
/// separator early enough to leave room before the detail marker `m`.
pub open spec fn is_summary_start(s: Seq<char>, i: int, m: int) -> bool {
    &&& 1 <= i < s.len()
    &&& s[i] == '\''
    &&& has_colon_in(s, i + 2, m - 3)
    &&& forall|i2: int| i < i2 < s.len() && s[i2] == '\'' ==> !has_colon_in(s, i2 + 2, m - 3)
}

/// `q` is the first `: ` after the summary start `i` (and fits before `m`).
pub open spec fn is_summary_end(s: Seq<char>, i: int, q: int, m: int) -> bool {
    &&& colon_at(s, q)
    &&& i + 2 <= q <= m - 3
    &&& forall|p: int| i + 2 <= p < q ==> !colon_at(s, p)
}

/// Rule 1 matches `s` with summary `s[i+1..q]` and detail `s[m+10..j]`.
pub open spec fn chained_parts(s: Seq<char>, i: int, q: int, m: int, j: int) -> bool {
    &&& no_newline(s)
    &&& is_last_quote(s, j)
    &&& is_last_marker(s, m, j)
    &&& is_summary_start(s, i, m)
    &&& is_summary_end(s, i, q, m)
}

/// The output of rule 1: `<summary>. (<detail>)`.
pub open spec fn chained_rewrite(s: Seq<char>, i: int, q: int, m: int, j: int) -> Seq<char> {
    s.subrange(i + 1, q) + ". ("@ + s.subrange(m + 10, j) + ")"@
}

pub open spec fn chained_matches(s: Seq<char>) -> bool {
    exists|i: int, q: int, m: int, j: int| chained_parts(s, i, q, m, j)
}

/// What rule 1 turns `s` into (or `s` itself when the rule does not match).
pub open spec fn apply_chained(s: Seq<char>) -> Seq<char> {
    if chained_matches(s) {
        let (i, q, m, j) = choose|i: int, q: int, m: int, j: int| chained_parts(s, i, q, m, j);
        chained_rewrite(s, i, q, m, j)
    } else {
        s
    }
}

/// The opening of the user-tag rule.
pub open spec fn user_open() -> Seq<char> {
    "User(\""@
}

/// The closing of the user-tag rule.
pub open spec fn user_close() -> Seq<char> {
    "\")"@
}

/// Position `i` of the opening can be completed by a closing.
pub open spec fn user_completable(s: Seq<char>, i: int) -> bool {
    exists|j: int| i + 7 <= j <= s.len() - 3 && occurs_at(s, j, user_close())
}

/// `i` is the last completable opening, not at the start of the string.
pub open spec fn is_user_open(s: Seq<char>, i: int) -> bool {
    &&& 1 <= i
    &&& occurs_at(s, i, user_open())
    &&& user_completable(s, i)
    &&& forall|i2: int| i < i2 && occurs_at(s, i2, user_open()) ==> !user_completable(s, i2)
}

/// `j` is the first closing after the opening `i`, with a character left
/// after it.
pub open spec fn is_user_close(s: Seq<char>, i: int, j: int) -> bool {
    &&& i + 7 <= j <= s.len() - 3
    &&& occurs_at(s, j, user_close())
    &&& forall|j2: int| i + 7 <= j2 < j ==> !occurs_at(s, j2, user_close())
}

/// Rule 2 matches `s` with summary `s[i+6..j]`.
pub open spec fn user_parts(s: Seq<char>, i: int, j: int) -> bool {
    &&& no_newline(s)
    &&& is_user_open(s, i)
    &&& is_user_close(s, i, j)
}

pub open spec fn user_rewrite(s: Seq<char>, i: int, j: int) -> Seq<char> {
    s.subrange(i + 6, j)
}

pub open spec fn user_matches(s: Seq<char>) -> bool {
    exists|i: int, j: int| user_parts(s, i, j)
}

/// What rule 2 turns `s` into (or `s` itself when the rule does not match).
pub open spec fn apply_user(s: Seq<char>) -> Seq<char> {
    if user_matches(s) {
        let (i, j) = choose|i: int, j: int| user_parts(s, i, j);
        user_rewrite(s, i, j)
    } else {
        s
    }
}

/// The fixed envelope of rule 3.
pub open spec fn panic_prefix() -> Seq<char> {
    "panicked at '"@
}

/// A character the trailing location of rule 3 may hold.
pub open spec fn loc_char(c: char) -> bool {
    ||| 'a' <= c <= 'z'
    ||| 'A' <= c <= 'Z'
    ||| '0' <= c <= '9'
    ||| c == '_'
    ||| c == '-'
    ||| c == '/'
    ||| c == '.'
    ||| c == ':'
}

/// From `p` to the end, the string is a nonempty run of location characters.
pub open spec fn loc_tail(s: Seq<char>, p: int) -> bool {
    &&& p < s.len()
    &&& forall|k: int| p <= k < s.len() ==> loc_char(s[k])
}

/// `t` is the first `', ` after a nonempty summary that is followed by a
/// pure location tail, and the summary before it holds no newline.
pub open spec fn is_panic_sep(s: Seq<char>, t: int) -> bool {
    &&& 14 <= t
    &&& occurs_at(s, t, "', "@)
    &&& loc_tail(s, t + 3)
    &&& forall|k: int| 13 <= k < t ==> s[k] != '\n'
    &&& forall|t2: int| 14 <= t2 < t ==> !(occurs_at(s, t2, "', "@) && loc_tail(s, t2 + 3))
}

/// Rule 3 matches `s` with summary `s[13..t]`.
pub open spec fn panic_parts(s: Seq<char>, t: int) -> bool {
    &&& occurs_at(s, 0, panic_prefix())
    &&& is_panic_sep(s, t)
}

pub open spec fn panic_rewrite(s: Seq<char>, t: int) -> Seq<char> {
    s.subrange(13, t)
}

pub open spec fn panic_matches(s: Seq<char>) -> bool {
    exists|t: int| panic_parts(s, t)
}

/// What rule 3 turns `s` into (or `s` itself when the rule does not match).
pub open spec fn apply_panic(s: Seq<char>) -> Seq<char> {
    if panic_matches(s) {
        let t = choose|t: int| panic_parts(s, t);
        panic_rewrite(s, t)
    } else {
        s
    }
}

/// The whole normalizer: the first rule whose application changes the
/// string decides; otherwise the string is returned unchanged.
pub open spec fn normalize_spec(s: Seq<char>) -> Seq<char> {
    if apply_chained(s) != s {
        apply_chained(s)
    } else if apply_user(s) != s {
        apply_user(s)
    } else {
        apply_panic(s)
    }
}

/// The witnesses of rule 1 are unique: every clause pins its position.
pub proof fn lemma_chained_parts_unique(
    s: Seq<char>,
    i1: int, q1: int, m1: int, j1: int,
    i2: int, q2: int, m2: int, j2: int,
)
    requires
        chained_parts(s, i1, q1, m1, j1),
        chained_parts(s, i2, q2, m2, j2),
    ensures
        i1 == i2 && q1 == q2 && m1 == m2 && j1 == j2,
{
    assert(j1 == j2) by {
        if j1 < j2 {
            assert(s[j2] != '"');
        } else if j2 < j1 {
            assert(s[j1] != '"');
        }
    }
    assert(m1 == m2) by {
        if m1 < m2 {
            assert(m2 + 11 > j1);
        } else if m2 < m1 {
            assert(m1 + 11 > j2);
        }
    }
    assert(i1 == i2) by {
        if i1 < i2 {
            assert(!has_colon_in(s, i2 + 2, m1 - 3));
        } else if i2 < i1 {
            assert(!has_colon_in(s, i1 + 2, m2 - 3));
        }
    }
    assert(q1 == q2) by {
        if q1 < q2 {
            assert(!colon_at(s, q1));
        } else if q2 < q1 {
            assert(!colon_at(s, q2));
        }
    }
}

/// The witnesses of rule 2 are unique.
pub proof fn lemma_user_parts_unique(s: Seq<char>, i1: int, j1: int, i2: int, j2: int)
    requires
        user_parts(s, i1, j1),
        user_parts(s, i2, j2),
    ensures
        i1 == i2 && j1 == j2,
{
    assert(i1 == i2) by {
        if i1 < i2 {
            assert(!user_completable(s, i2));
        } else if i2 < i1 {
            assert(!user_completable(s, i1));
        }
    }
    assert(j1 == j2) by {
        if j1 < j2 {
            assert(!occurs_at(s, j1, user_close()));
        } else if j2 < j1 {
            assert(!occurs_at(s, j2, user_close()));
        }
    }
}

/// The witness of rule 3 is unique.
pub proof fn lemma_panic_parts_unique(s: Seq<char>, t1: int, t2: int)
    requires
        panic_parts(s, t1),
        panic_parts(s, t2),
    ensures
        t1 == t2,
{
    if t1 < t2 {
        assert(!(occurs_at(s, t1, "', "@) && loc_tail(s, t1 + 3)));
    } else if t2 < t1 {
        assert(!(occurs_at(s, t2, "', "@) && loc_tail(s, t2 + 3)));
    }
}

/// Law: on an input that the chained-context rule matches and changes, the
/// normalizer yields exactly `<summary>. (<detail>)`.
pub proof fn lemma_chained_context(s: Seq<char>, i: int, q: int, m: int, j: int)
    requires
        chained_parts(s, i, q, m, j),
        chained_rewrite(s, i, q, m, j) != s,
    ensures
        normalize_spec(s) == chained_rewrite(s, i, q, m, j),
{
    assert(chained_matches(s));
    let (ci, cq, cm, cj) = choose|ci: int, cq: int, cm: int, cj: int| chained_parts(
        s, ci, cq, cm, cj);
    lemma_chained_parts_unique(s, ci, cq, cm, cj, i, q, m, j);
}

/// Law: the chained-context rewrite is idempotent: when neither the summary
/// nor the detail holds a double quote, normalizing the rewritten string
/// changes nothing further.
pub proof fn lemma_chained_context_idempotent(s: Seq<char>, i: int, q: int, m: int, j: int)
    requires
        chained_parts(s, i, q, m, j),
        chained_rewrite(s, i, q, m, j) != s,
        forall|k: int| i + 1 <= k < q ==> s[k] != '"',
        forall|k: int| m + 10 <= k < j ==> s[k] != '"',
    ensures
        normalize_spec(normalize_spec(s)) == normalize_spec(s),
{
    lemma_chained_context(s, i, q, m, j);
    let t = chained_rewrite(s, i, q, m, j);
    reveal_strlit(". (");
    reveal_strlit(")");
    assert(". ("@.len() == 3 && ". ("@[0] == '.' && ". ("@[1] == ' ' && ". ("@[2] == '(');
    assert(")"@.len() == 1 && ")"@[0] == ')');
    assert forall|k: int| 0 <= k < t.len() implies t[k] != '"' by {
        let e = s.subrange(i + 1, q);
        let u = s.subrange(m + 10, j);
        if k < e.len() {
            assert(t[k] == s[i + 1 + k]);
        } else if k < e.len() + 3 {
            assert(t[k] == ". ("@[k - e.len()]);
        } else if k < e.len() + 3 + u.len() {
            assert(t[k] == s[m + 10 + (k - e.len() - 3)]);
        } else {
            assert(t[k] == ')');
        }
    }
    assert(!chained_matches(t)) by {
        if chained_matches(t) {
            let (ci, cq, cm, cj) = choose|ci: int, cq: int, cm: int, cj: int| chained_parts(
                t, ci, cq, cm, cj);
            assert(t[cj] == '"');
        }
    }
    assert(!user_matches(t)) by {
        if user_matches(t) {
            let (ci, cj) = choose|ci: int, cj: int| user_parts(t, ci, cj);
            reveal_strlit("User(\"");
            assert(occurs_at(t, ci, user_open()));
            assert(t[ci + 5] == user_open()[5]);
            assert(t[ci + 5] == '"');
        }
    }
    assert(!panic_matches(t)) by {
        if panic_matches(t) {
            let ct = choose|ct: int| panic_parts(t, ct);
            assert(loc_tail(t, ct + 3));
            assert(t.len() >= 1 && t[t.len() - 1] == ')');
            assert(loc_char(')'));
        }
    }
    assert(normalize_spec(t) == t);
}

/// Law: a string that none of the three rules matches is returned
/// unchanged.
pub proof fn lemma_unmatched_identity(s: Seq<char>)
    requires
        !chained_matches(s),
        !user_matches(s),
        !panic_matches(s),
    ensures
        normalize_spec(s) == s,
{
}

/// Whether `v` holds a raw newline.
fn has_newline(v: &Vec<char>) -> (b: bool)
    ensures
        b == !no_newline(v@),
{
    let n = v.len();
    let mut k: usize = 0;
    while k < n
        invariant
            k <= n == v@.len(),
            forall|t: int| 0 <= t < k ==> v@[t] != '\n',
        decreases n - k,
    {
        if v[k] == '\n' {
            return true;
        }
        k += 1;
    }
    false
}

/// Rule 1, executable: `Some` holds the rewritten string when the rule
/// matches; `None` says it does not match.
fn try_chained(v: &Vec<char>) -> (r: Option<Vec<char>>)
    ensures
        match r {
            Some(out) => chained_matches(v@) && out@ == apply_chained(v@),
            None => !chained_matches(v@),
        },
{
    let n = v.len();
    if has_newline(v) || n < 2 {
        return None;
    }
    let quote_pat = str_chars("\"");
    proof {
        reveal_strlit("\"");
    }
    let j = match rfind_pat(v, &quote_pat, n - 2) {
        Some(j) => j,
        None => {
            proof {
                assert forall|i: int, q: int, m: int, jj: int| !chained_parts(v@, i, q, m, jj) by {
                    if chained_parts(v@, i, q, m, jj) {
                        assert(occurs_at(v@, jj, quote_pat@));
                    }
                }
            }
            return None;
        },
    };
    proof {
        assert(is_last_quote(v@, j as int)) by {
            assert(v@[j as int] == quote_pat@[0]);
            assert forall|k: int| j < k <= v@.len() - 2 implies v@[k] != '"' by {
                assert(!occurs_at(v@, k, quote_pat@));
            }
        }
    }
    let marker_pat = str_chars("message: \"");
    if j < 11 {
        proof {
            assert forall|i: int, q: int, m: int, jj: int| !chained_parts(v@, i, q, m, jj) by {
                if chained_parts(v@, i, q, m, jj) {
                    lemma_chained_parts_unique(v@, i, q, m, jj, i, q, m, j as int);
                }
            }
        }
        return None;
    }
    let m = match rfind_pat(v, &marker_pat, j - 11) {
        Some(m) => m,
        None => {
            proof {
                assert forall|i: int, q: int, mm: int, jj: int| !chained_parts(v@, i, q, mm, jj) by {
                    if chained_parts(v@, i, q, mm, jj) {
                        assert(jj == j) by {
                            if jj < j {
                                assert(v@[j as int] != '"');
                            } else if j < jj {
                                assert(v@[jj] != '"');
                            }
                        }
                        assert(!occurs_at(v@, mm, marker_pat@));
                    }
                }
            }
            return None;
        },
    };
    proof {
        assert(is_last_marker(v@, m as int, j as int)) by {
            assert forall|k: int| m < k && occurs_at(v@, k, detail_marker()) implies k + 11 > j by {
                if k + 11 <= j {
                    assert(!occurs_at(v@, k, marker_pat@));
                }
            }
        }
    }
    if m < 6 {
        proof {
            assert forall|i: int, q: int, mm: int, jj: int| !chained_parts(v@, i, q, mm, jj) by {
                if chained_parts(v@, i, q, mm, jj) {
                    lemma_chained_parts_unique(v@, i, q, mm, jj, i, q, m as int, j as int);
                }
            }
        }
        return None;
    }
    let colon_pat = str_chars(": ");
    let mut i = n - 1;
    loop
        invariant
            1 <= i < n == v@.len(),
            6 <= m,
            quote_pat@ == "\""@,
            marker_pat@ == "message: \""@,
            colon_pat@ == ": "@,
            no_newline(v@),
            is_last_quote(v@, j as int),
            is_last_marker(v@, m as int, j as int),
            forall|i2: int| i < i2 < v@.len() && v@[i2] == '\'' ==> !has_colon_in(
                v@, i2 + 2, m - 3),
        decreases i,
    {
        if v[i] == '\'' && i <= m - 5 {
            match lfind_pat(v, &colon_pat, i + 2, m - 3) {
                Some(q) => {
                    proof {
                        assert(colon_at(v@, q as int));
                        assert(has_colon_in(v@, i + 2, m - 3)) by {
                            assert(i + 2 <= q as int <= m - 3 && colon_at(v@, q as int));
                        }
                        assert(is_summary_start(v@, i as int, m as int));
                        assert(is_summary_end(v@, i as int, q as int, m as int));
                        assert(chained_parts(v@, i as int, q as int, m as int, j as int));
                    }
                    let dot_paren = str_chars(". (");
                    let close_paren = str_chars(")");
                    let mut out: Vec<char> = Vec::new();
                    push_range(&mut out, v, i + 1, q);
                    push_all(&mut out, &dot_paren);
                    push_range(&mut out, v, m + 10, j);
                    push_all(&mut out, &close_paren);
                    proof {
                        assert(out@ =~= chained_rewrite(v@, i as int, q as int, m as int,
                            j as int));
                        let (ci, cq, cm, cj) = choose|ci: int, cq: int, cm: int, cj: int|
                            chained_parts(v@, ci, cq, cm, cj);
                        lemma_chained_parts_unique(v@, ci, cq, cm, cj, i as int, q as int,
                            m as int, j as int);
                    }
                    return Some(out);
                },
                None => {
                    proof {
                        assert(!has_colon_in(v@, i + 2, m - 3)) by {
                            if has_colon_in(v@, i + 2, m - 3) {
                                let p = choose|p: int| i + 2 <= p <= m - 3 && colon_at(v@, p);
                                assert(!occurs_at(v@, p, colon_pat@));
                            }
                        }
                    }
                },
            }
        } else {
            proof {
                if v@[i as int] == '\'' {
                    assert(i > m - 5);
                    assert(!has_colon_in(v@, i + 2, m - 3)) by {
                        if has_colon_in(v@, i + 2, m - 3) {
                            let p = choose|p: int| i + 2 <= p <= m - 3 && colon_at(v@, p);
                            assert(i + 2 <= p);
                        }
                    }
                }
            }
        }
        if i == 1 {
            proof {
                assert forall|ii: int, q: int, mm: int, jj: int| !chained_parts(
                    v@, ii, q, mm, jj) by {
                    if chained_parts(v@, ii, q, mm, jj) {
                        lemma_chained_parts_unique(v@, ii, q, mm, jj, ii, q, m as int, j as int);
                        assert(has_colon_in(v@, ii + 2, m - 3));
                    }
                }
            }
            return None;
        }
        i -= 1;
    }
}

/// Rule 2, executable.
fn try_user(v: &Vec<char>) -> (r: Option<Vec<char>>)
    ensures
        match r {
            Some(out) => user_matches(v@) && out@ == apply_user(v@),
            None => !user_matches(v@),
        },
{
    let n = v.len();
    if has_newline(v) || n < 11 {
        return None;
    }
    let open_pat = str_chars("User(\"");
    let close_pat = str_chars("\")");
    let mut i = n - 1;
    loop
        invariant
            1 <= i < n == v@.len(),
            11 <= n,
            open_pat@ == "User(\""@,
            close_pat@ == "\")"@,
            no_newline(v@),
            forall|i2: int| i < i2 ==> !(occurs_at(v@, i2, user_open()) && user_completable(
                v@, i2)),
        decreases i,
    {
        if i <= n - 10 && occurs_check(v, i, &open_pat) {
            match lfind_pat(v, &close_pat, i + 7, n - 3) {
                Some(j) => {
                    proof {
                        assert(user_completable(v@, i as int)) by {
                            assert(i + 7 <= j as int <= v@.len() - 3 && occurs_at(
                                v@, j as int, user_close()));
                        }
                        assert(is_user_open(v@, i as int));
                        assert(is_user_close(v@, i as int, j as int));
                        assert(user_parts(v@, i as int, j as int));
                    }
                    let mut out: Vec<char> = Vec::new();
                    push_range(&mut out, v, i + 6, j);
                    proof {
                        assert(out@ =~= user_rewrite(v@, i as int, j as int));
                        let (ci, cj) = choose|ci: int, cj: int| user_parts(v@, ci, cj);
                        lemma_user_parts_unique(v@, ci, cj, i as int, j as int);
                    }
                    return Some(out);
                },
                None => {
                    proof {
                        assert(!user_completable(v@, i as int)) by {
                            if user_completable(v@, i as int) {
                                let j2 = choose|j2: int| i + 7 <= j2 <= v@.len() - 3
                                    && occurs_at(v@, j2, user_close());
                                assert(!occurs_at(v@, j2, close_pat@));
                            }
                        }
                    }
                },
            }
        } else {
            proof {
                if occurs_at(v@, i as int, user_open()) {
                    assert(i > n - 10);
                    assert(!user_completable(v@, i as int)) by {
                        if user_completable(v@, i as int) {
                            let j2 = choose|j2: int| i + 7 <= j2 <= v@.len() - 3 && occurs_at(
                                v@, j2, user_close());
                            assert(i + 7 <= j2);
                        }
                    }
                }
            }
        }
        if i == 1 {
            proof {
                assert forall|ii: int, jj: int| !user_parts(v@, ii, jj) by {
                    if user_parts(v@, ii, jj) {
                        assert(occurs_at(v@, ii, user_open()) && user_completable(v@, ii));
                        assert(1 <= ii < v@.len());
                    }
                }
            }
            return None;
        }
        i -= 1;
    }
}

/// Whether `v[p..]` is a nonempty run of location characters.
fn tail_loc_check(v: &Vec<char>, p: usize) -> (b: bool)
    ensures
        b == loc_tail(v@, p as int),
{
    let n = v.len();
    if p >= n {
        return false;
    }
    let mut k = p;
    while k < n
        invariant
            p <= k <= n == v@.len(),
            forall|t: int| p <= t < k ==> loc_char(v@[t]),
        decreases n - k,
    {
        let c = v[k];
        let ok = ('a' <= c && c <= 'z') || ('A' <= c && c <= 'Z') || ('0' <= c && c <= '9')
            || c == '_' || c == '-' || c == '/' || c == '.' || c == ':';
        if !ok {
            return false;
        }
        k += 1;
    }
    true
}

/// Rule 3, executable.
fn try_panic(v: &Vec<char>) -> (r: Option<Vec<char>>)
    ensures
        match r {
            Some(out) => panic_matches(v@) && out@ == apply_panic(v@),
            None => !panic_matches(v@),
        },
{
    let n = v.len();
    let prefix_pat = str_chars("panicked at '");
    if n < 18 || !occurs_check(v, 0, &prefix_pat) {
        proof {
            assert forall|t: int| !panic_parts(v@, t) by {
                if panic_parts(v@, t) {
                    assert(occurs_at(v@, 0, prefix_pat@));
                    assert(loc_tail(v@, t + 3));
                    assert(v@.len() >= 18) by {
                        assert(t + 3 < v@.len());
                    }
                }
            }
        }
        return None;
    }
    let sep_pat = str_chars("', ");
    let mut t: usize = 14;
    let mut nl = v[13] == '\n';
    while t <= n - 4
        invariant
            14 <= t,
            18 <= n == v@.len(),
            prefix_pat@ == "panicked at '"@,
            sep_pat@ == "', "@,
            occurs_at(v@, 0, panic_prefix()),
            nl == exists|k: int| 13 <= k < t && v@[k] == '\n',
            forall|t2: int| 14 <= t2 < t ==> !(occurs_at(v@, t2, "', "@) && loc_tail(
                v@, t2 + 3)),
        decreases n - t,
    {
        if occurs_check(v, t, &sep_pat) && tail_loc_check(v, t + 3) {
            if nl {
                proof {
                    assert forall|tt: int| !panic_parts(v@, tt) by {
                        if panic_parts(v@, tt) {
                            if tt > t {
                                assert(!(occurs_at(v@, t as int, "', "@) && loc_tail(
                                    v@, t + 3)));
                            } else if tt == t {
                                let k = choose|k: int| 13 <= k < t && v@[k] == '\n';
                                assert(v@[k] != '\n');
                            }
                        }
                    }
                }
                return None;
            }
            proof {
                assert(is_panic_sep(v@, t as int));
                assert(panic_parts(v@, t as int));
            }
            let mut out: Vec<char> = Vec::new();
            push_range(&mut out, v, 13, t);
            proof {
                assert(out@ =~= panic_rewrite(v@, t as int));
                let ct = choose|ct: int| panic_parts(v@, ct);
                lemma_panic_parts_unique(v@, ct, t as int);
            }
            return Some(out);
        }
        nl = nl || v[t] == '\n';
        t += 1;
        proof {
            assert(nl == exists|k: int| 13 <= k < t && v@[k] == '\n') by {
                if v@[t - 1] == '\n' {
                    assert(13 <= t - 1 < t && v@[t - 1] == '\n');
                }
            }
        }
    }
    proof {
        assert forall|tt: int| !panic_parts(v@, tt) by {
            if panic_parts(v@, tt) {
                assert(loc_tail(v@, tt + 3));
                assert(tt + 3 < v@.len());
            }
        }
    }
    None
}

/// Extract a human-meaningful error string from a raw, unstructured crash
/// payload: the first rule that matches and changes the string decides, and
/// a string no rule changes comes back unchanged.
pub fn normalize(raw: &str) -> (r: String)
    ensures
        r@ == normalize_spec(raw@),
{
    let v = str_chars(raw);
    if let Some(out) = try_chained(&v) {
        if !char_vec_eq(&out, &v) {
            return chars_to_string(&out);
        }
    }
    if let Some(out) = try_user(&v) {
        if !char_vec_eq(&out, &v) {
            return chars_to_string(&out);
        }
    }
    if let Some(out) = try_panic(&v) {
        return chars_to_string(&out);
    }
    let out = copy_chars(&v);
    chars_to_string(&out)
}

} // verus!
