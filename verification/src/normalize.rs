//! Line normalization: the source text is split into physical lines, all
//! whitespace is removed, text from the first `//` onward is dropped, and
//! the non-empty results are kept together with their 1-based line numbers.

use vstd::prelude::*;

use crate::chars::{find_char, is_ws_char, subvec, ws_char};

verus! {

/// Index of the first occurrence of `c` in `s`, or `s.len()` if absent.
pub open spec fn first_pos(s: Seq<char>, c: char) -> nat
    decreases s.len(),
{
    if s.len() == 0 {
        0
    } else if s[0] == c {
        0
    } else {
        1 + first_pos(s.drop_first(), c)
    }
}

pub proof fn lemma_first_pos_unique(s: Seq<char>, c: char, p: nat)
    requires
        p <= s.len(),
        forall|i: int| 0 <= i < p ==> s[i] != c,
        p < s.len() ==> s[p as int] == c,
    ensures
        p == first_pos(s, c),
    decreases s.len(),
{
    if s.len() == 0 {
    } else if s[0] == c {
        assert(p == 0);
    } else {
        assert(p >= 1);
        assert forall|i: int| 0 <= i < p - 1 implies s.drop_first()[i] != c by {
            assert(s[i + 1] != c);
        }
        if p - 1 < s.drop_first().len() {
            assert(s.drop_first()[p - 1] == s[p as int]);
        }
        lemma_first_pos_unique(s.drop_first(), c, (p - 1) as nat);
    }
}

/// A comment marker stands at `i`: two consecutive slashes.
pub open spec fn marker_at(s: Seq<char>, i: int) -> bool {
    0 <= i && i + 1 < s.len() && s[i] == '/' && s[i + 1] == '/'
}

/// Index of the first comment marker in `s`, or `s.len()` if there is none.
pub open spec fn marker_pos(s: Seq<char>) -> nat
    decreases s.len(),
{
    if s.len() < 2 {
        s.len()
    } else if s[0] == '/' && s[1] == '/' {
        0
    } else {
        1 + marker_pos(s.drop_first())
    }
}

pub proof fn lemma_marker_pos_props(s: Seq<char>)
    ensures
        marker_pos(s) <= s.len(),
        marker_pos(s) < s.len() ==> marker_at(s, marker_pos(s) as int),
        forall|i: int| 0 <= i < marker_pos(s) ==> !marker_at(s, i),
    decreases s.len(),
{
    if s.len() < 2 {
    } else if s[0] == '/' && s[1] == '/' {
    } else {
        lemma_marker_pos_props(s.drop_first());
        assert forall|i: int| 0 <= i < marker_pos(s) implies !marker_at(s, i) by {
            if i > 0 {
                assert(!marker_at(s.drop_first(), i - 1));
            }
        }
    }
}

pub proof fn lemma_marker_pos_unique(s: Seq<char>, p: nat)
    requires
        p <= s.len(),
        forall|i: int| 0 <= i < p ==> !marker_at(s, i),
        p < s.len() ==> marker_at(s, p as int),
    ensures
        p == marker_pos(s),
    decreases s.len(),
{
    if s.len() < 2 {
        if p < s.len() {
            assert(!marker_at(s, p as int));
        }
    } else if s[0] == '/' && s[1] == '/' {
        assert(marker_at(s, 0));
        assert(p == 0);
    } else {
        if p == 0 {
            assert(marker_at(s, 0));
            assert(false);
        }
        assert forall|i: int| 0 <= i < p - 1 implies !marker_at(s.drop_first(), i) by {
            assert(!marker_at(s, i + 1));
        }
        if p - 1 < s.drop_first().len() {
            assert(marker_at(s, p as int));
            assert(marker_at(s.drop_first(), p - 1));
        }
        lemma_marker_pos_unique(s.drop_first(), (p - 1) as nat);
    }
}

/// `s` with every whitespace character removed.
pub open spec fn strip_ws(s: Seq<char>) -> Seq<char>
    decreases s.len(),
{
    if s.len() == 0 {
        Seq::empty()
    } else if is_ws_char(s[0]) {
        strip_ws(s.drop_first())
    } else {
        seq![s[0]] + strip_ws(s.drop_first())
    }
}

pub proof fn lemma_strip_ws_push(s: Seq<char>, c: char)
    ensures
        strip_ws(s.push(c)) == strip_ws(s) + (if is_ws_char(c) {
            Seq::<char>::empty()
        } else {
            seq![c]
        }),
    decreases s.len(),
{
    let tail = if is_ws_char(c) {
        Seq::<char>::empty()
    } else {
        seq![c]
    };
    let e = Seq::<char>::empty();
    if s.len() == 0 {
        assert(s == e);
        assert(s.push(c) =~= seq![c]);
        assert(seq![c].drop_first() == e) by {
            assert(seq![c].drop_first() =~= e);
        }
        assert(strip_ws(e) == e);
        assert(seq![c][0] == c);
        if is_ws_char(c) {
            assert(strip_ws(seq![c]) == e);
            assert(strip_ws(s) + tail =~= e);
        } else {
            assert(strip_ws(seq![c]) == seq![c] + e);
            assert(seq![c] + e =~= seq![c]);
            assert(strip_ws(s) + tail =~= seq![c]);
        }
    } else {
        assert(s.push(c).drop_first() =~= s.drop_first().push(c));
        lemma_strip_ws_push(s.drop_first(), c);
        assert(s.push(c)[0] == s[0]);
        if is_ws_char(s[0]) {
        } else {
            assert(seq![s[0]] + (strip_ws(s.drop_first()) + tail) =~= (seq![s[0]]
                + strip_ws(s.drop_first())) + tail);
        }
    }
}

pub proof fn lemma_strip_ws_len(s: Seq<char>)
    ensures
        strip_ws(s).len() <= s.len(),
    decreases s.len(),
{
    if s.len() == 0 {
    } else {
        lemma_strip_ws_len(s.drop_first());
    }
}

/// A physical line reduced for classification: whitespace removed, then
/// truncated at the first comment marker.
pub open spec fn normalize_line(l: Seq<char>) -> Seq<char> {
    let t = strip_ws(l);
    t.take(marker_pos(t) as int)
}

pub proof fn lemma_normalize_line_len(l: Seq<char>)
    ensures
        normalize_line(l).len() <= l.len(),
{
    lemma_strip_ws_len(l);
    lemma_marker_pos_props(strip_ws(l));
}

/// Law: a blank or comment-only line normalizes to the empty text, so it
/// contributes no entry to the instruction sequence (`instrs_from` keeps
/// only non-empty texts) and, the passes counting only entries, it neither
/// produces output nor advances the ROM counter.
pub proof fn lemma_blank_or_comment_line(l: Seq<char>)
    requires
        strip_ws(l).len() == 0 || (strip_ws(l).len() >= 2 && strip_ws(l)[0] == '/' && strip_ws(
            l,
        )[1] == '/'),
    ensures
        normalize_line(l).len() == 0,
{
    let t = strip_ws(l);
    if t.len() == 0 {
        lemma_marker_pos_props(t);
    } else {
        assert(marker_at(t, 0));
        lemma_marker_pos_unique(t, 0);
    }
}

/// A normalized instruction text together with its 1-based source line number.
pub struct SpecNormLine {
    pub line: nat,
    pub text: Seq<char>,
}

/// The normalized instructions of the source suffix `s`, whose first physical
/// line is line `ln` of the file.
pub open spec fn instrs_from(s: Seq<char>, ln: nat) -> Seq<SpecNormLine>
    decreases s.len(),
{
    let j = first_pos(s, '\n');
    let head = normalize_line(s.take(j as int));
    let head_seq = if head.len() > 0 {
        seq![SpecNormLine { line: ln, text: head }]
    } else {
        Seq::<SpecNormLine>::empty()
    };
    if j >= s.len() {
        head_seq
    } else {
        head_seq + instrs_from(s.skip(j as int + 1), ln + 1)
    }
}

/// All normalized instructions of a source text, in order, with 1-based
/// physical line numbers.
pub open spec fn instructions_of(s: Seq<char>) -> Seq<SpecNormLine> {
    instrs_from(s, 1)
}

/// Exec form of a normalized instruction.
pub struct NormLine {
    pub line: usize,
    pub text: Vec<char>,
}

impl View for NormLine {
    type V = SpecNormLine;

    open spec fn view(&self) -> SpecNormLine {
        SpecNormLine { line: self.line as nat, text: self.text@ }
    }
}

pub open spec fn norms_view(s: Seq<NormLine>) -> Seq<SpecNormLine> {
    s.map_values(|n: NormLine| n@)
}

/// Removes whitespace and comments from one physical line.
fn normalize_piece(l: &Vec<char>) -> (r: Vec<char>)
    ensures
        r@ == normalize_line(l@),
{
    let mut st: Vec<char> = Vec::new();
    let mut i: usize = 0;
    while i < l.len()
        invariant
            i <= l.len(),
            st@ == strip_ws(l@.take(i as int)),
        decreases l.len() - i,
    {
        let c = l[i];
        proof {
            assert(l@.take(i as int + 1) =~= l@.take(i as int).push(l@[i as int]));
            lemma_strip_ws_push(l@.take(i as int), l@[i as int]);
        }
        if !ws_char(c) {
            st.push(c);
            proof {
                assert(strip_ws(l@.take(i as int)).push(c) =~= strip_ws(l@.take(i as int))
                    + seq![c]);
            }
        } else {
            proof {
                assert(strip_ws(l@.take(i as int)) + Seq::<char>::empty() =~= strip_ws(
                    l@.take(i as int),
                ));
            }
        }
        i += 1;
    }
    proof {
        assert(l@.take(l.len() as int) =~= l@);
    }
    // find the first comment marker in the stripped text
    let n = st.len();
    let mut m: usize = 0;
    let mut found: bool = false;
    if n >= 2 {
        while !found && m < n - 1
            invariant
                n == st.len(),
                n >= 2,
                m <= n - 1,
                found ==> marker_at(st@, m as int),
                forall|k: int| 0 <= k < m ==> !marker_at(st@, k),
            decreases n - m + (if found {
                0int
            } else {
                1int
            }),
        {
            if st[m] == '/' && st[m + 1] == '/' {
                found = true;
            } else {
                m += 1;
            }
        }
    }
    let cut = if found {
        m
    } else {
        n
    };
    proof {
        if found {
            lemma_marker_pos_unique(st@, cut as nat);
        } else {
            assert forall|k: int| 0 <= k < st@.len() implies !marker_at(st@, k) by {
                if n >= 2 {
                    assert(k >= m ==> k + 1 >= n);
                }
            }
            lemma_marker_pos_unique(st@, cut as nat);
        }
    }
    let r = subvec(&st, 0, cut);
    proof {
        assert(st@.subrange(0, cut as int) =~= st@.take(marker_pos(st@) as int));
    }
    r
}

/// Produces the normalized instruction sequence of the whole source text.
pub fn normalized_instructions(chars: &Vec<char>) -> (r: Vec<NormLine>)
    ensures
        norms_view(r@) == instructions_of(chars@),
{
    let mut out: Vec<NormLine> = Vec::new();
    let mut pos: usize = 0;
    let mut nl_count: usize = 0;
    let mut done: bool = false;
    proof {
        assert(chars@.skip(0) =~= chars@);
        assert(norms_view(out@) =~= Seq::<SpecNormLine>::empty());
        assert(norms_view(out@) + instrs_from(chars@, 1) =~= instrs_from(chars@, 1));
    }
    while !done
        invariant
            pos <= chars.len(),
            nl_count <= pos,
            !done ==> instructions_of(chars@) == norms_view(out@) + instrs_from(
                chars@.skip(pos as int),
                nl_count as nat + 1,
            ),
            done ==> instructions_of(chars@) == norms_view(out@),
        decreases chars.len() - pos + (if done {
            0int
        } else {
            1int
        }),
    {
        let ghost prev_out = out@;
        let ghost suffix = chars@.skip(pos as int);
        let ghost ln = nl_count as nat + 1;
        let j = find_char(chars, pos, '\n');
        let piece = subvec(chars, pos, j);
        let norm = normalize_piece(&piece);
        proof {
            assert forall|k: int| 0 <= k < j - pos implies suffix[k] != '\n' by {
                assert(suffix[k] == chars@[pos + k]);
            }
            if (j as int) < chars@.len() {
                assert(suffix[j - pos] == chars@[j as int]);
            }
            lemma_first_pos_unique(suffix, '\n', (j - pos) as nat);
            assert(suffix.take(j - pos) =~= chars@.subrange(pos as int, j as int));
            assert(normalize_line(suffix.take(j - pos)) == norm@);
        }
        let ghost head_seq: Seq<SpecNormLine> = if norm@.len() > 0 {
            seq![SpecNormLine { line: ln, text: norm@ }]
        } else {
            Seq::<SpecNormLine>::empty()
        };
        if norm.len() > 0 {
            proof {
                lemma_normalize_line_len(piece@);
            }
            let entry = NormLine { line: nl_count + 1, text: norm };
            out.push(entry);
            proof {
                assert(norms_view(out@) =~= norms_view(prev_out) + head_seq);
            }
        } else {
            proof {
                assert(norms_view(out@) + head_seq =~= norms_view(out@));
            }
        }
        // norms_view(out@) == norms_view(prev_out) + head_seq in both branches
        if j < chars.len() {
            proof {
                assert(instrs_from(suffix, ln) == head_seq + instrs_from(
                    suffix.skip(j - pos + 1),
                    ln + 1,
                ));
                assert(suffix.skip(j - pos + 1) =~= chars@.skip(j as int + 1));
                assert(norms_view(prev_out) + (head_seq + instrs_from(
                    chars@.skip(j as int + 1),
                    ln + 1,
                )) =~= (norms_view(prev_out) + head_seq) + instrs_from(
                    chars@.skip(j as int + 1),
                    ln + 1,
                ));
            }
            pos = j + 1;
            nl_count = nl_count + 1;
        } else {
            proof {
                assert(instrs_from(suffix, ln) == head_seq);
            }
            done = true;
        }
    }
    out
}

} // verus!
