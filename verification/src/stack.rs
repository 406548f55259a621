//! The stack capturer: at failure time the current call stack is captured
//! and rendered as an ordered list of frames, innermost first. Each
//! frame-symbol pair is judged on its own: a symbol whose demangled name
//! lies outside the tool's namespace, or belongs to the reporting
//! subsystem itself, is dropped, and the frame's other symbols are kept.
//! Unresolvable file or line information degrades to the literal
//! `undefined`. The namespace grammar reads ASCII word, digit and brace
//! characters; a segment holding other characters is treated as
//! non-matching.

use vstd::prelude::*;
use crate::text::{occurs_at, occurs_check, dec_rep, push_u64_dec, str_chars, chars_to_string,
    push_all, push_range};

verus! {

/// One resolved symbol, reduced to the plain values the formatter reads.
pub struct RawSymbol {
    pub name: Option<String>,
    pub filename: Option<String>,
    pub lineno: Option<u32>,
}

/// The mathematical shape of one resolved symbol.
pub struct SymView {
    pub name: Option<Seq<char>>,
    pub filename: Option<Seq<char>>,
    pub lineno: Option<u32>,
}

impl View for RawSymbol {
    type V = SymView;

    open spec fn view(&self) -> SymView {
        SymView {
            name: match self.name {
                Some(n) => Some(n@),
                None => None,
            },
            filename: match self.filename {
                Some(f) => Some(f@),
                None => None,
            },
            lineno: self.lineno,
        }
    }
}

/// One captured stack frame: zero or more resolved symbols.
pub struct RawFrame {
    pub symbols: Vec<RawSymbol>,
}

impl View for RawFrame {
    type V = Seq<SymView>;

    open spec fn view(&self) -> Seq<SymView> {
        self.symbols@.map_values(|s: RawSymbol| s@)
    }
}

/// A character a demangled path segment may hold (closure markers
/// included).
pub open spec fn word_char(c: char) -> bool {
    ||| 'a' <= c <= 'z'
    ||| 'A' <= c <= 'Z'
    ||| '0' <= c <= '9'
    ||| c == '_'
    ||| c == '{'
    ||| c == '}'
}

/// A character of the trailing instantiation hash segment.
pub open spec fn hash_char(c: char) -> bool {
    ||| 'a' <= c <= 'z'
    ||| '0' <= c <= '9'
}

/// The end of the run of word characters starting at `p`.
pub open spec fn word_run_end(s: Seq<char>, p: int) -> int
    decreases s.len() - p,
{
    if 0 <= p < s.len() && word_char(s[p]) {
        word_run_end(s, p + 1)
    } else {
        p
    }
}

/// A `::segment` begins at `p`.
pub open spec fn seg_starts(s: Seq<char>, p: int) -> bool {
    &&& p >= 0
    &&& p + 2 < s.len()
    &&& s[p] == ':'
    &&& s[p + 1] == ':'
    &&& word_char(s[p + 2])
}

/// The word run starting at `p` ends at or after `p`, and within `s`.
pub proof fn lemma_word_run_ge(s: Seq<char>, p: int)
    requires
        0 <= p <= s.len(),
    ensures
        p <= word_run_end(s, p) <= s.len(),
    decreases s.len() - p,
{
    if 0 <= p < s.len() && word_char(s[p]) {
        lemma_word_run_ge(s, p + 1);
    }
}

/// The end of the maximal run of `::segment` groups starting at `p`.
pub open spec fn seg_run_end(s: Seq<char>, p: int) -> int
    decreases s.len() - p,
    when p >= 0
    via seg_run_end_dec
{
    if seg_starts(s, p) {
        seg_run_end(s, word_run_end(s, p + 2))
    } else {
        p
    }
}

#[via_fn]
proof fn seg_run_end_dec(s: Seq<char>, p: int) {
    if seg_starts(s, p) {
        lemma_word_run_ge(s, p + 3);
        assert(word_run_end(s, p + 2) == word_run_end(s, p + 3));
    }
}

/// How many `::segment` groups the run starting at `p` holds.
pub open spec fn seg_count(s: Seq<char>, p: int) -> nat
    decreases s.len() - p,
    when p >= 0
    via seg_count_dec
{
    if seg_starts(s, p) {
        1 + seg_count(s, word_run_end(s, p + 2))
    } else {
        0
    }
}

#[via_fn]
proof fn seg_count_dec(s: Seq<char>, p: int) {
    if seg_starts(s, p) {
        lemma_word_run_ge(s, p + 3);
        assert(word_run_end(s, p + 2) == word_run_end(s, p + 3));
    }
}

/// Where the `k`-th `::segment` group of the run starting at `p` begins.
pub open spec fn nth_seg_start(s: Seq<char>, p: int, k: nat) -> int
    decreases k,
{
    if k == 0 {
        p
    } else {
        nth_seg_start(s, word_run_end(s, p + 2), (k - 1) as nat)
    }
}

/// All characters of `s[lo..hi]` are hash characters.
pub open spec fn all_hash(s: Seq<char>, lo: int, hi: int) -> bool {
    forall|k: int| lo <= k < hi ==> hash_char(s[k])
}

/// From `p`, the rest of `s` is a run of at least two `::segment` groups,
/// the last of which is a plain instantiation hash.
pub open spec fn tail_run_ok(s: Seq<char>, p: int) -> bool {
    &&& seg_count(s, p) >= 2
    &&& seg_run_end(s, p) == s.len()
    &&& all_hash(s, nth_seg_start(s, p, (seg_count(s, p) - 1) as nat) + 2, s.len() as int)
}

/// No newline in `s[lo..hi]`.
pub open spec fn no_nl_between(s: Seq<char>, lo: int, hi: int) -> bool {
    forall|k: int| lo <= k < hi ==> s[k] != '\n'
}

/// `g` closes a trait-impl alias opened at `p4`: it is the last `>` that is
/// reachable without crossing a newline and is followed by a valid segment
/// tail.
pub open spec fn is_alias_close(s: Seq<char>, p4: int, g: int) -> bool {
    &&& p4 <= g < s.len()
    &&& s[g] == '>'
    &&& no_nl_between(s, p4, g)
    &&& tail_run_ok(s, g + 1)
    &&& forall|g2: int| g < g2 < s.len() && s[g2] == '>' && no_nl_between(s, p4, g2)
        ==> !tail_run_ok(s, g2 + 1)
}

/// The alias close position is unique.
pub proof fn lemma_alias_close_unique(s: Seq<char>, p4: int, g1: int, g2: int)
    requires
        is_alias_close(s, p4, g1),
        is_alias_close(s, p4, g2),
    ensures
        g1 == g2,
{
    if g1 < g2 {
        assert(!tail_run_ok(s, g2 + 1));
    } else if g2 < g1 {
        assert(!tail_run_ok(s, g1 + 1));
    }
}

/// Some alias close position exists.
pub open spec fn has_alias_close(s: Seq<char>, p4: int) -> bool {
    exists|g: int| #[trigger] is_alias_close(s, p4, g)
}

/// The unique alias close position (meaningful only when one exists).
pub open spec fn alias_close_of(s: Seq<char>, p4: int) -> int {
    choose|g: int| #[trigger] is_alias_close(s, p4, g)
}

/// The namespace of the tool's own code.
pub open spec fn tool_ns() -> Seq<char> {
    "rudderc"@
}

/// The clean symbolic path re-derived from a demangled symbol name, if the
/// name lies in the tool's namespace: the leading path, with the method
/// segment of a trait-impl alias appended, and the trailing instantiation
/// hash removed.
pub open spec fn symbol_path(w: Seq<char>) -> Option<Seq<char>> {
    let start: int = if w.len() > 0 && w[0] == '<' { 1 } else { 0 };
    if !occurs_at(w, start, tool_ns()) {
        None
    } else {
        let p0 = start + 7;
        let run_end = seg_run_end(w, p0);
        let c = seg_count(w, p0);
        if c >= 1 && occurs_at(w, run_end, " as "@) {
            if has_alias_close(w, run_end + 4) {
                let g = alias_close_of(w, run_end + 4);
                let c2 = seg_count(w, g + 1);
                Some(w.subrange(start, run_end) + w.subrange(
                    nth_seg_start(w, g + 1, (c2 - 2) as nat),
                    nth_seg_start(w, g + 1, (c2 - 1) as nat),
                ))
            } else {
                None
            }
        } else if tail_run_ok(w, p0) {
            Some(w.subrange(start, nth_seg_start(w, p0, (c - 1) as nat)))
        } else {
            None
        }
    }
}

/// A path of the reporting subsystem itself: never shown in a trace.
pub open spec fn reporter_path(p: Seq<char>) -> bool {
    ||| occurs_at(p, 0, "rudderc::logger"@)
    ||| occurs_at(p, 0, "rudderc::error::Error::new"@)
}

/// `k` spaces.
pub open spec fn spaces(k: nat) -> Seq<char>
    decreases k,
{
    if k == 0 {
        Seq::empty()
    } else {
        spaces((k - 1) as nat).push(' ')
    }
}

/// A resolvable text field, or the literal `undefined`.
pub open spec fn opt_text(o: Option<Seq<char>>) -> Seq<char> {
    match o {
        Some(t) => t,
        None => "undefined"@,
    }
}

/// A resolvable line number, or the literal `undefined`.
pub open spec fn opt_line(o: Option<u32>) -> Seq<char> {
    match o {
        Some(l) => dec_rep(l as int),
        None => "undefined"@,
    }
}

/// One rendered trace line, indented proportionally to the symbol's index
/// within its frame.
pub open spec fn line_of(
    index: nat,
    path: Seq<char>,
    filename: Option<Seq<char>>,
    lineno: Option<u32>,
) -> Seq<char> {
    "  "@ + spaces(2 * index) + path + " at '"@ + opt_text(filename) + ":"@ + opt_line(lineno)
        + "'"@
}

/// What one symbol contributes: nothing when its name is unresolvable,
/// outside the tool's namespace, or belongs to the reporter itself.
pub open spec fn format_symbol_spec(index: nat, sym: SymView) -> Option<Seq<char>> {
    match sym.name {
        None => None,
        Some(nm) => match symbol_path(nm) {
            None => None,
            Some(p) => if reporter_path(p) {
                None
            } else {
                Some(line_of(index, p, sym.filename, sym.lineno))
            },
        },
    }
}

/// The lines of one frame: exactly those symbols that contribute a line,
/// in order. A symbol that contributes nothing is dropped pair by pair;
/// the frame's other symbols are kept.
pub open spec fn frame_lines(syms: Seq<SymView>) -> Seq<Seq<char>>
    decreases syms.len(),
{
    if syms.len() == 0 {
        Seq::empty()
    } else {
        frame_lines(syms.drop_last()) + (match format_symbol_spec(
            (syms.len() - 1) as nat, syms.last()) {
            Some(l) => seq![l],
            None => Seq::<Seq<char>>::empty(),
        })
    }
}

/// All rendered lines, in capture order (innermost frame first).
pub open spec fn trace_lines(frames: Seq<Seq<SymView>>) -> Seq<Seq<char>>
    decreases frames.len(),
{
    if frames.len() == 0 {
        Seq::empty()
    } else {
        trace_lines(frames.drop_last()) + frame_lines(frames.last())
    }
}

/// `lines`, joined with newlines.
pub open spec fn join_nl(lines: Seq<Seq<char>>) -> Seq<char>
    decreases lines.len(),
{
    if lines.len() == 0 {
        Seq::empty()
    } else if lines.len() == 1 {
        lines[0]
    } else {
        join_nl(lines.drop_last()) + "\n"@ + lines.last()
    }
}

/// The full rendered trace.
pub open spec fn render_trace_spec(frames: Seq<Seq<SymView>>) -> Seq<char> {
    "\nTrace:\n"@ + join_nl(trace_lines(frames))
}

/// Every line a frame renders to comes from a symbol outside the reporting
/// subsystem.
pub proof fn lemma_frame_lines_clean(syms: Seq<SymView>, t: int)
    requires
        0 <= t < frame_lines(syms).len(),
    ensures
        exists|idx: nat, p: Seq<char>, f: Option<Seq<char>>, ln: Option<u32>|
            frame_lines(syms)[t] == line_of(idx, p, f, ln) && !reporter_path(p),
    decreases syms.len(),
{
    let ls = frame_lines(syms);
    if syms.len() > 0 {
        let pre = frame_lines(syms.drop_last());
        if t < pre.len() {
            lemma_frame_lines_clean(syms.drop_last(), t);
            assert(ls[t] == pre[t]);
        } else {
            let idx = (syms.len() - 1) as nat;
            let sym = syms.last();
            match format_symbol_spec(idx, sym) {
                Some(l) => {
                    let p = symbol_path(sym.name->Some_0)->Some_0;
                    assert(ls[t] == line_of(idx, p, sym.filename, sym.lineno)
                        && !reporter_path(p));
                },
                None => {
                    assert(false);
                },
            }
        }
    }
}

/// Law: no rendered trace line shows a path of the reporting subsystem
/// itself, whatever call stack was captured.
pub proof fn lemma_trace_excludes_reporter(frames: Seq<Seq<SymView>>, k: int)
    requires
        0 <= k < trace_lines(frames).len(),
    ensures
        exists|idx: nat, p: Seq<char>, f: Option<Seq<char>>, ln: Option<u32>|
            trace_lines(frames)[k] == line_of(idx, p, f, ln) && !reporter_path(p),
    decreases frames.len(),
{
    if frames.len() > 0 {
        let pre = trace_lines(frames.drop_last());
        if k < pre.len() {
            lemma_trace_excludes_reporter(frames.drop_last(), k);
            assert(trace_lines(frames)[k] == pre[k]);
        } else {
            lemma_frame_lines_clean(frames.last(), k - pre.len());
            assert(trace_lines(frames)[k] == frame_lines(frames.last())[k - pre.len()]);
        }
    }
}


/// For every position before the `k`-th, a segment begins where expected.
pub proof fn lemma_nth_seg_starts(s: Seq<char>, p: int, k: nat)
    requires
        0 <= p <= s.len(),
        k < seg_count(s, p),
    ensures
        seg_starts(s, nth_seg_start(s, p, k)),
        p <= nth_seg_start(s, p, k) <= s.len(),
    decreases k,
{
    assert(seg_starts(s, p));
    if k == 0 {
    } else {
        lemma_word_run_ge(s, p + 3);
        assert(word_run_end(s, p + 2) == word_run_end(s, p + 3));
        lemma_nth_seg_starts(s, word_run_end(s, p + 2), (k - 1) as nat);
    }
}

/// Segment starts are strictly increasing.
pub proof fn lemma_nth_seg_mono(s: Seq<char>, p: int, k: nat)
    requires
        0 <= p <= s.len(),
        k + 1 < seg_count(s, p),
    ensures
        nth_seg_start(s, p, k) + 3 <= nth_seg_start(s, p, (k + 1) as nat),
    decreases k,
{
    assert(seg_starts(s, p));
    lemma_word_run_ge(s, p + 3);
    assert(word_run_end(s, p + 2) == word_run_end(s, p + 3));
    if k == 0 {
        assert(nth_seg_start(s, p, 1nat) == nth_seg_start(s, word_run_end(s, p + 2), 0nat));
    } else {
        lemma_nth_seg_mono(s, word_run_end(s, p + 2), (k - 1) as nat);
    }
}

/// The end of the word run starting at `p`, executable.
fn word_run_end_exec(v: &Vec<char>, p: usize) -> (r: usize)
    requires
        p <= v@.len(),
    ensures
        r as int == word_run_end(v@, p as int),
        p <= r <= v@.len(),
    decreases v@.len() - p,
{
    if p < v.len() {
        let c = v[p];
        let w = ('a' <= c && c <= 'z') || ('A' <= c && c <= 'Z') || ('0' <= c && c <= '9')
            || c == '_' || c == '{' || c == '}';
        if w {
            return word_run_end_exec(v, p + 1);
        }
    }
    p
}

/// Whether a `::segment` begins at `p`, executable.
fn seg_starts_exec(v: &Vec<char>, p: usize) -> (b: bool)
    requires
        p <= v@.len(),
    ensures
        b == seg_starts(v@, p as int),
{
    if v.len() - p > 2 {
        let c = v[p + 2];
        v[p] == ':' && v[p + 1] == ':' && (('a' <= c && c <= 'z') || ('A' <= c && c <= 'Z')
            || ('0' <= c && c <= '9') || c == '_' || c == '{' || c == '}')
    } else {
        false
    }
}

/// The end of the maximal segment run starting at `p`, executable.
fn seg_run_end_exec(v: &Vec<char>, p: usize) -> (r: usize)
    requires
        p <= v@.len(),
    ensures
        r as int == seg_run_end(v@, p as int),
        p <= r <= v@.len(),
    decreases v@.len() - p,
{
    if seg_starts_exec(v, p) {
        let n = v.len();
        proof {
            assert(p + 2 < n);
        }
        let w = word_run_end_exec(v, p + 2);
        proof {
            lemma_word_run_ge(v@, p + 3);
            assert(word_run_end(v@, p + 2) == word_run_end(v@, p + 3));
        }
        seg_run_end_exec(v, w)
    } else {
        p
    }
}

/// The number of segments in the run starting at `p`, executable.
fn seg_count_exec(v: &Vec<char>, p: usize) -> (r: usize)
    requires
        p <= v@.len(),
    ensures
        r as nat == seg_count(v@, p as int),
        p + 3 * r <= v@.len(),
    decreases v@.len() - p,
{
    if seg_starts_exec(v, p) {
        let n = v.len();
        proof {
            assert(p + 2 < n);
        }
        let w = word_run_end_exec(v, p + 2);
        proof {
            lemma_word_run_ge(v@, p + 3);
            assert(word_run_end(v@, p + 2) == word_run_end(v@, p + 3));
        }
        let rest = seg_count_exec(v, w);
        proof {
            assert(3 * (1 + rest) <= v@.len());
        }
        1 + rest
    } else {
        0
    }
}

/// The start of the `k`-th segment of the run at `p`, executable.
fn nth_seg_start_exec(v: &Vec<char>, p: usize, k: usize) -> (r: usize)
    requires
        p <= v@.len(),
        (k as nat) < seg_count(v@, p as int),
    ensures
        r as int == nth_seg_start(v@, p as int, k as nat),
        p <= r <= v@.len(),
    decreases k,
{
    if k == 0 {
        p
    } else {
        let n = v.len();
        proof {
            assert(seg_starts(v@, p as int));
            assert(p + 2 < n);
        }
        let w = word_run_end_exec(v, p + 2);
        proof {
            lemma_word_run_ge(v@, p + 3);
            assert(word_run_end(v@, p + 2) == word_run_end(v@, p + 3));
        }
        nth_seg_start_exec(v, w, k - 1)
    }
}

/// Whether `v[lo..hi]` is all hash characters, executable.
fn all_hash_exec(v: &Vec<char>, lo: usize, hi: usize) -> (b: bool)
    requires
        lo <= hi <= v@.len(),
    ensures
        b == all_hash(v@, lo as int, hi as int),
{
    let mut k = lo;
    while k < hi
        invariant
            lo <= k <= hi <= v@.len(),
            forall|t: int| lo <= t < k ==> hash_char(v@[t]),
        decreases hi - k,
    {
        let c = v[k];
        if !(('a' <= c && c <= 'z') || ('0' <= c && c <= '9')) {
            return false;
        }
        k += 1;
    }
    true
}

/// Whether the rest of `v` from `p` is a valid segment tail, executable.
fn tail_run_ok_exec(v: &Vec<char>, p: usize) -> (b: bool)
    requires
        p <= v@.len(),
    ensures
        b == tail_run_ok(v@, p as int),
{
    let c = seg_count_exec(v, p);
    if c < 2 {
        return false;
    }
    let re = seg_run_end_exec(v, p);
    if re != v.len() {
        return false;
    }
    let l = nth_seg_start_exec(v, p, c - 1);
    proof {
        lemma_nth_seg_starts(v@, p as int, (c - 1) as nat);
    }
    all_hash_exec(v, l + 2, v.len())
}

/// The alias close position, executable: the last eligible `>`.
fn find_alias_close(v: &Vec<char>, p4: usize) -> (r: Option<usize>)
    requires
        p4 <= v@.len(),
    ensures
        match r {
            Some(g) => is_alias_close(v@, p4 as int, g as int),
            None => forall|g: int| !is_alias_close(v@, p4 as int, g),
        },
{
    let n = v.len();
    let mut nl = p4;
    while nl < n && v[nl] != '\n'
        invariant
            p4 <= nl <= n == v@.len(),
            forall|t: int| p4 <= t < nl ==> v@[t] != '\n',
        decreases n - nl,
    {
        nl += 1;
    }
    let mut g = nl;
    while g > p4
        invariant
            p4 <= g <= nl <= n == v@.len(),
            forall|t: int| p4 <= t < nl ==> v@[t] != '\n',
            nl < n ==> v@[nl as int] == '\n',
            forall|g2: int| g <= g2 < nl ==> !(v@[g2] == '>' && tail_run_ok(v@, g2 + 1)),
        decreases g,
    {
        g -= 1;
        if v[g] == '>' {
            if tail_run_ok_exec(v, g + 1) {
                proof {
                    assert forall|g2: int| g < g2 < v@.len() && v@[g2] == '>' && no_nl_between(
                        v@, p4 as int, g2) implies !tail_run_ok(v@, g2 + 1) by {
                        if g2 >= nl {
                            assert(nl < n);
                            assert(v@[nl as int] == '\n');
                            if g2 == nl {
                                assert(v@[g2] == '\n');
                            } else {
                                assert(p4 <= nl < g2 && v@[nl as int] == '\n');
                            }
                        }
                    }
                    assert(is_alias_close(v@, p4 as int, g as int));
                }
                return Some(g);
            }
        }
    }
    proof {
        assert forall|gg: int| !is_alias_close(v@, p4 as int, gg) by {
            if is_alias_close(v@, p4 as int, gg) {
                if gg < nl {
                } else {
                    assert(nl < n);
                    assert(v@[nl as int] == '\n');
                    if gg == nl {
                        assert(v@[gg] == '>');
                    } else {
                        assert(!no_nl_between(v@, p4 as int, gg));
                    }
                }
            }
        }
    }
    None
}

/// The clean symbolic path of a demangled name, executable.
#[verifier::rlimit(60)]
fn symbol_path_exec(v: &Vec<char>) -> (r: Option<Vec<char>>)
    ensures
        match r {
            Some(out) => symbol_path(v@) == Some(out@),
            None => symbol_path(v@) is None,
        },
{
    let n = v.len();
    let start: usize = if n > 0 && v[0] == '<' {
        1
    } else {
        0
    };
    let ns = str_chars("rudderc");
    if !occurs_check(v, start, &ns) {
        return None;
    }
    proof {
        reveal_strlit("rudderc");
    }
    let p0 = start + 7;
    let run_end = seg_run_end_exec(v, p0);
    let c = seg_count_exec(v, p0);
    let asp = str_chars(" as ");
    if c >= 1 && occurs_check(v, run_end, &asp) {
        proof {
            reveal_strlit(" as ");
        }
        match find_alias_close(v, run_end + 4) {
            Some(g) => {
                let c2 = seg_count_exec(v, g + 1);
                let l2 = nth_seg_start_exec(v, g + 1, c2 - 2);
                let l3 = nth_seg_start_exec(v, g + 1, c2 - 1);
                proof {
                    lemma_nth_seg_mono(v@, g + 1, (c2 - 2) as nat);
                }
                let mut out: Vec<char> = Vec::new();
                push_range(&mut out, v, start, run_end);
                push_range(&mut out, v, l2, l3);
                proof {
                    let w = v@;
                    let sstart: int = if w.len() > 0 && w[0] == '<' { 1int } else { 0int };
                    assert(sstart == start as int);
                    let srun = seg_run_end(w, sstart + 7);
                    assert(srun == run_end as int);
                    assert(has_alias_close(w, srun + 4)) by {
                        assert(is_alias_close(w, srun + 4, g as int));
                    }
                    let cg = alias_close_of(w, srun + 4);
                    assert(is_alias_close(w, srun + 4, cg)) by {
                        assert(is_alias_close(w, srun + 4, g as int));
                    }
                    lemma_alias_close_unique(w, srun + 4, cg, g as int);
                    assert(cg == g as int);
                    assert(seg_count(w, cg + 1) == c2 as nat);
                    assert(occurs_at(w, sstart, tool_ns()));
                    assert(seg_count(w, sstart + 7) >= 1);
                    assert(occurs_at(w, srun, " as "@));
                    assert(symbol_path(w) == Some(w.subrange(sstart, srun) + w.subrange(
                        nth_seg_start(w, cg + 1, (seg_count(w, cg + 1) - 2) as nat),
                        nth_seg_start(w, cg + 1, (seg_count(w, cg + 1) - 1) as nat),
                    )));
                    assert(l2 as int == nth_seg_start(w, cg + 1, (c2 - 2) as nat));
                    assert(l3 as int == nth_seg_start(w, cg + 1, (c2 - 1) as nat));
                    assert(out@ =~= w.subrange(sstart, srun) + w.subrange(l2 as int,
                        l3 as int));
                }
                return Some(out);
            },
            None => {
                return None;
            },
        }
    } else if tail_run_ok_exec(v, p0) {
        let l = nth_seg_start_exec(v, p0, c - 1);
        let mut out: Vec<char> = Vec::new();
        push_range(&mut out, v, start, l);
        proof {
            assert(out@ =~= symbol_path(v@)->Some_0);
        }
        return Some(out);
    } else {
        return None;
    }
}

/// What one symbol contributes to the trace, executable.
fn format_symbol(index: usize, sym: &RawSymbol) -> (r: Option<Vec<char>>)
    ensures
        match r {
            Some(l) => format_symbol_spec(index as nat, sym@) == Some(l@),
            None => format_symbol_spec(index as nat, sym@) is None,
        },
{
    let nm = match &sym.name {
        Some(nm) => nm,
        None => {
            return None;
        },
    };
    let w = str_chars(nm.as_str());
    let path = match symbol_path_exec(&w) {
        Some(p) => p,
        None => {
            return None;
        },
    };
    let lp = str_chars("rudderc::logger");
    let ep = str_chars("rudderc::error::Error::new");
    if occurs_check(&path, 0, &lp) || occurs_check(&path, 0, &ep) {
        return None;
    }
    let mut out: Vec<char> = Vec::new();
    let ind = str_chars("  ");
    push_all(&mut out, &ind);
    let mut t: usize = 0;
    while t < index
        invariant
            t <= index,
            out@ == "  "@ + spaces((2 * t) as nat),
        decreases index - t,
    {
        out.push(' ');
        out.push(' ');
        t += 1;
        proof {
            assert(spaces((2 * t) as nat) == spaces((2 * t - 1) as nat).push(' '));
            assert(spaces((2 * t - 1) as nat) == spaces((2 * t - 2) as nat).push(' '));
            assert(out@ =~= "  "@ + spaces((2 * t) as nat));
        }
    }
    push_all(&mut out, &path);
    let atq = str_chars(" at '");
    push_all(&mut out, &atq);
    match &sym.filename {
        Some(f) => {
            let fv = str_chars(f.as_str());
            push_all(&mut out, &fv);
        },
        None => {
            let u = str_chars("undefined");
            push_all(&mut out, &u);
        },
    }
    let colon = str_chars(":");
    push_all(&mut out, &colon);
    match sym.lineno {
        Some(l) => {
            push_u64_dec(&mut out, l as u64);
        },
        None => {
            let u = str_chars("undefined");
            push_all(&mut out, &u);
        },
    }
    let q = str_chars("'");
    push_all(&mut out, &q);
    proof {
        assert(out@ =~= line_of(index as nat, path@, sym@.filename, sym@.lineno));
    }
    Some(out)
}

/// The lines of one frame, executable: the contributing symbols, in
/// order; the others are skipped pair by pair.
fn frame_lines_exec(f: &RawFrame) -> (ls: Vec<Vec<char>>)
    ensures
        ls@.map_values(|l: Vec<char>| l@) == frame_lines(f@),
{
    let n = f.symbols.len();
    let mut ls: Vec<Vec<char>> = Vec::new();
    proof {
        assert(f@.subrange(0, 0) =~= Seq::<SymView>::empty());
        assert(ls@.map_values(|l: Vec<char>| l@) =~= Seq::<Seq<char>>::empty());
    }
    let mut k: usize = 0;
    while k < n
        invariant
            k <= n == f.symbols@.len(),
            n == f@.len(),
            frame_lines(f@.subrange(0, k as int)) == ls@.map_values(|l: Vec<char>| l@),
        decreases n - k,
    {
        match format_symbol(k, &f.symbols[k]) {
            Some(l) => {
                ls.push(l);
            },
            None => {},
        }
        k += 1;
        proof {
            let pre = f@.subrange(0, k as int);
            assert(pre.drop_last() =~= f@.subrange(0, k - 1));
            assert(pre.last() == f@[k - 1]);
            assert(f@[k - 1] == f.symbols@[k - 1]@);
            assert(ls@.map_values(|l: Vec<char>| l@) =~= frame_lines(pre));
        }
    }
    proof {
        assert(f@.subrange(0, n as int) =~= f@);
    }
    ls
}

/// Append `lines`, joined with newlines, to `out`.
fn join_nl_push(out: &mut Vec<char>, lines: &Vec<Vec<char>>)
    ensures
        final(out)@ == old(out)@ + join_nl(lines@.map_values(|l: Vec<char>| l@)),
{
    let n = lines.len();
    let sep = str_chars("\n");
    proof {
        assert(out@ =~= old(out)@ + join_nl(
            lines@.map_values(|l: Vec<char>| l@).subrange(0, 0)));
    }
    let mut k: usize = 0;
    while k < n
        invariant
            k <= n == lines@.len(),
            sep@ == "\n"@,
            out@ == old(out)@ + join_nl(lines@.map_values(|l: Vec<char>| l@).subrange(
                0, k as int)),
        decreases n - k,
    {
        if k > 0 {
            push_all(out, &sep);
        }
        push_all(out, &lines[k]);
        k += 1;
        proof {
            let deep = lines@.map_values(|l: Vec<char>| l@);
            let pre = deep.subrange(0, k as int);
            assert(pre.drop_last() =~= deep.subrange(0, k - 1));
            assert(pre.last() == deep[k - 1]);
            assert(out@ =~= old(out)@ + join_nl(pre));
        }
    }
    proof {
        let deep = lines@.map_values(|l: Vec<char>| l@);
        assert(deep.subrange(0, n as int) =~= deep);
    }
}

/// Render captured frames as the trace section shown to the user.
pub fn render_trace(frames: &Vec<RawFrame>) -> (r: String)
    ensures
        r@ == render_trace_spec(frames@.map_values(|f: RawFrame| f@)),
{
    let n = frames.len();
    let mut lines: Vec<Vec<char>> = Vec::new();
    proof {
        let mapped = frames@.map_values(|f: RawFrame| f@);
        assert(mapped.subrange(0, 0) =~= Seq::<Seq<SymView>>::empty());
        assert(lines@.map_values(|l: Vec<char>| l@) =~= trace_lines(mapped.subrange(0, 0)));
    }
    let mut k: usize = 0;
    while k < n
        invariant
            k <= n == frames@.len(),
            lines@.map_values(|l: Vec<char>| l@) == trace_lines(frames@.map_values(
                |f: RawFrame| f@).subrange(0, k as int)),
        decreases n - k,
    {
        let ghost before = lines@.map_values(|l: Vec<char>| l@);
        let mut ls = frame_lines_exec(&frames[k]);
        let ghost lsv = ls@;
        lines.append(&mut ls);
        proof {
            assert(lines@.map_values(|l: Vec<char>| l@) =~= before + lsv.map_values(
                |l: Vec<char>| l@));
        }
        k += 1;
        proof {
            let mapped = frames@.map_values(|f: RawFrame| f@);
            let pre = mapped.subrange(0, k as int);
            assert(pre.drop_last() =~= mapped.subrange(0, k - 1));
            assert(pre.last() == mapped[k - 1]);
            assert(mapped[k - 1] == frames@[k - 1]@);
            assert(lines@.map_values(|l: Vec<char>| l@) =~= trace_lines(pre));
        }
    }
    let mut out: Vec<char> = Vec::new();
    let head = str_chars("\nTrace:\n");
    push_all(&mut out, &head);
    join_nl_push(&mut out, &lines);
    proof {
        let mapped = frames@.map_values(|f: RawFrame| f@);
        assert(mapped.subrange(0, n as int) =~= mapped);
        assert(out@ =~= render_trace_spec(mapped));
    }
    chars_to_string(&out)
}

/// Relies on backtrace::Backtrace::new and its frame and symbol accessors
/// (frames, symbols, name, filename, lineno): each captured frame is
/// converted to the plain values the formatter reads, the symbol name as
/// its debug rendering. What the capture holds depends on the live call
/// stack, so nothing is promised of the result.
#[verifier::external_body]
fn capture_frames() -> (r: Vec<RawFrame>) {
    backtrace::Backtrace::new().frames().iter().map(|f| RawFrame {
        symbols: f.symbols().iter().map(|s| RawSymbol {
            name: s.name().map(|n| format!("{:?}", n)),
            filename: s.filename().and_then(|p| p.to_str()).map(|x| x.to_owned()),
            lineno: s.lineno(),
        }).collect(),
    }).collect()
}

/// A captured call stack, taken at construction time.
pub struct Backtrace {
    frames: Vec<RawFrame>,
}

impl View for Backtrace {
    type V = Seq<Seq<SymView>>;

    closed spec fn view(&self) -> Seq<Seq<SymView>> {
        self.frames@.map_values(|f: RawFrame| f@)
    }
}

impl Backtrace {
    /// Capture the current call stack. What it holds depends on the live
    /// stack, so nothing is known of the captured frames.
    pub fn new() -> (r: Backtrace) {
        Backtrace { frames: capture_frames() }
    }

    /// A backtrace over the given frames.
    pub fn from_frames(frames: Vec<RawFrame>) -> (r: Backtrace)
        ensures
            r@ == frames@.map_values(|f: RawFrame| f@),
    {
        Backtrace { frames }
    }

    /// Render this backtrace as the trace section shown to the user.
    pub fn render(&self) -> (r: String)
        ensures
            r@ == render_trace_spec(self@),
    {
        render_trace(&self.frames)
    }
}

} // verus!

