//! What the bot sends to the language model and how it reads the replies:
//! the prompts, the sanitising of untrusted answers, and the tolerant
//! extraction of the verdict object from a reply.
use vstd::prelude::*;

use crate::error::Error;
use crate::i18n::first_index;
use crate::i18n::{lemma_first_index_at, lemma_first_index_bound};
use crate::text::{chars_of, is_control, is_control_char, push_str, str_eq, string_of_range, trim, trimmed};

verus! {

broadcast use vstd::string::group_string_axioms;

/// The most characters of an applicant's answer passed to the judge.
pub const MAX_ANSWER_CHARS: usize = 4000;

/// The judge's decision on an answer.
#[derive(Debug, Clone, PartialEq, Eq)]
pub struct Verdict {
    pub accept: bool,
    pub reason: String,
}

// ---------------------------------------------------------------------------
// Locating the verdict object in a reply.

/// Where a left-to-right scan of a reply stands: the brace depth outside
/// string literals, whether it is inside a string literal, and whether the
/// previous character inside a string was an unconsumed backslash.
pub struct ScanState {
    pub depth: int,
    pub in_string: bool,
    pub escape: bool,
}

pub open spec fn scan_start() -> ScanState {
    ScanState { depth: 0, in_string: false, escape: false }
}

/// The scan after one more character.
pub open spec fn scan_step(st: ScanState, c: char) -> ScanState {
    if st.in_string {
        if st.escape {
            ScanState { escape: false, ..st }
        } else if c == '\\' {
            ScanState { escape: true, ..st }
        } else if c == '"' {
            ScanState { in_string: false, ..st }
        } else {
            st
        }
    } else if c == '"' {
        ScanState { in_string: true, ..st }
    } else if c == '{' {
        ScanState { depth: st.depth + 1, ..st }
    } else if c == '}' {
        ScanState { depth: st.depth - 1, ..st }
    } else {
        st
    }
}

/// The scan after reading `s[start..n]`.
pub open spec fn scan(s: Seq<char>, start: int, n: int) -> ScanState
    decreases n - start,
{
    if n <= start {
        scan_start()
    } else {
        scan_step(scan(s, start, n - 1), s[n - 1])
    }
}

/// The first position `i >= from` where the brace depth opened at `start`
/// comes back to zero after reading `s[i]`.
pub open spec fn closing_brace(s: Seq<char>, start: int, from: int) -> Option<int>
    decreases s.len() - from,
{
    if from < 0 || from >= s.len() {
        None
    } else if scan(s, start, from + 1).depth == 0 {
        Some(from)
    } else {
        closing_brace(s, start, from + 1)
    }
}

/// The first balanced JSON object in `s`: from its first `{` to the `}`
/// that balances it, braces inside string literals not counting. Prose,
/// markdown fences and commentary around it are ignored.
pub open spec fn json_object(s: Seq<char>) -> Option<Seq<char>> {
    match first_index(s, '{') {
        None => None,
        Some(start) => match closing_brace(s, start, start) {
            Some(end) => Some(s.subrange(start, end + 1)),
            None => None,
        },
    }
}

/// Locates the first balanced JSON object in `raw`, ignoring surrounding
/// prose, markdown code fences or trailing commentary. String literals are
/// tracked so that braces inside them do not count.
pub fn extract_json_object(raw: &str) -> (r: Option<String>)
    ensures
        match json_object(raw@) {
            Some(o) => r matches Some(x) && x@ == o,
            None => r is None,
        },
{
    let v = chars_of(raw);
    let mut k: usize = 0;
    while k < v.len() && v[k] != '{'
        invariant
            v@ == raw@,
            k <= v.len(),
            forall|j: int| 0 <= j < k ==> v@[j] != '{',
        decreases v.len() - k,
    {
        k += 1;
    }
    proof {
        lemma_first_index_at(v@, '{', k as int);
    }
    if k == v.len() {
        return None;
    }
    let start = k;
    let ghost s = v@;
    let mut depth: usize = 1;
    let mut in_string = false;
    let mut escape = false;
    let mut i = start + 1;
    assert(scan(s, start as int, start + 1) == scan_step(scan(s, start as int, start as int), s[start as int]));
    assert(closing_brace(s, start as int, start as int) == closing_brace(s, start as int, start + 1));
    while i < v.len()
        invariant
            s == v@,
            s == raw@,
            first_index(s, '{') == Some(start as int),
            start < i <= v.len(),
            1 <= depth,
            depth <= i - start,
            scan(s, start as int, i as int) == (ScanState { depth: depth as int, in_string, escape }),
            closing_brace(s, start as int, start as int) == closing_brace(s, start as int, i as int),
        decreases v.len() - i,
    {
        let c = v[i];
        assert(scan(s, start as int, i + 1) == scan_step(scan(s, start as int, i as int), s[i as int]));
        if in_string {
            if escape {
                escape = false;
            } else if c == '\\' {
                escape = true;
            } else if c == '"' {
                in_string = false;
            }
        } else if c == '"' {
            in_string = true;
        } else if c == '{' {
            depth = depth + 1;
        } else if c == '}' {
            if depth == 1 {
                return Some(string_of_range(&v, start, i + 1));
            }
            depth = depth - 1;
        }
        i += 1;
    }
    None
}

proof fn lemma_closing_brace(s: Seq<char>, start: int, from: int)
    ensures
        closing_brace(s, start, from) matches Some(e) ==> {
            &&& 0 <= from <= e < s.len()
            &&& scan(s, start, e + 1).depth == 0
            &&& forall|j: int| from <= j < e ==> #[trigger] scan(s, start, j + 1).depth != 0
        },
    decreases s.len() - from,
{
    if 0 <= from < s.len() && scan(s, start, from + 1).depth != 0 {
        lemma_closing_brace(s, start, from + 1);
    }
}

proof fn lemma_depth_positive(s: Seq<char>, start: int, j: int)
    requires
        0 <= start <= j < s.len(),
        scan(s, start, start + 1).depth == 1,
        forall|k: int| start <= k <= j ==> #[trigger] scan(s, start, k + 1).depth != 0,
    ensures
        scan(s, start, j + 1).depth >= 1,
    decreases j - start,
{
    if j > start {
        lemma_depth_positive(s, start, j - 1);
        assert(scan(s, start, j + 1) == scan_step(scan(s, start, j), s[j]));
        assert(scan(s, start, (j - 1) + 1).depth != 0);
    }
}

/// The extracted object is a stretch of the reply that opens with `{` and
/// closes with `}`.
pub proof fn lemma_json_object_shape(s: Seq<char>)
    ensures
        json_object(s) matches Some(o) ==> {
            &&& o.len() >= 2
            &&& o[0] == '{'
            &&& o[o.len() - 1] == '}'
            &&& exists|start: int| 0 <= start && start + o.len() <= s.len() && #[trigger] s.subrange(start, start + o.len()) == o
        },
{
    lemma_first_index_bound(s, '{');
    if let Some(start) = first_index(s, '{') {
        lemma_closing_brace(s, start, start);
        if let Some(e) = closing_brace(s, start, start) {
            assert(scan(s, start, start + 1) == scan_step(scan(s, start, start), s[start]));
            assert(scan(s, start, start) == scan_start());
            assert(e > start);
            assert(scan(s, start, (e - 1) + 1).depth != 0);
            lemma_depth_positive(s, start, e - 1);
            assert(scan(s, start, e + 1) == scan_step(scan(s, start, e), s[e]));
            let o = s.subrange(start, e + 1);
            assert(o[0] == s[start]);
            assert(o[o.len() - 1] == s[e]);
            assert(s.subrange(start, start + o.len()) == o);
        }
    }
}

proof fn lemma_scan_shift(p: Seq<char>, o: Seq<char>, q: Seq<char>, k: int)
    requires
        0 <= k <= o.len(),
    ensures
        scan(p + o + q, p.len() as int, p.len() + k) == scan(o, 0, k),
    decreases k,
{
    if k > 0 {
        lemma_scan_shift(p, o, q, k - 1);
        assert((p + o + q)[p.len() + k - 1] == o[k - 1]);
    }
}

proof fn lemma_closing_shift(p: Seq<char>, o: Seq<char>, q: Seq<char>, k: int)
    requires
        o.len() > 0,
        0 <= k <= o.len() - 1,
        scan(o, 0, o.len() as int).depth == 0,
        forall|j: int| 0 <= j < o.len() - 1 ==> #[trigger] scan(o, 0, j + 1).depth != 0,
    ensures
        closing_brace(p + o + q, p.len() as int, p.len() + k) == Some(p.len() + o.len() - 1),
    decreases o.len() - k,
{
    lemma_scan_shift(p, o, q, k + 1);
    if k < o.len() - 1 {
        assert(scan(o, 0, k + 1).depth != 0);
        lemma_closing_shift(p, o, q, k + 1);
    }
}

/// The verdict object is found wherever the model puts it: prose without a
/// `{` before an object and whatever follows it are ignored, and the object
/// comes back whole.
pub proof fn lemma_json_object_in_prose(p: Seq<char>, o: Seq<char>, q: Seq<char>)
    requires
        forall|i: int| 0 <= i < p.len() ==> p[i] != '{',
        json_object(o) == Some(o),
    ensures
        json_object(p + o + q) == Some(o),
{
    let s = p + o + q;
    lemma_first_index_bound(o, '{');
    let st = first_index(o, '{')->0;
    lemma_closing_brace(o, st, st);
    let e = closing_brace(o, st, st)->0;
    assert(o.subrange(st, e + 1).len() == o.len());
    assert(st == 0);
    assert(e == o.len() - 1);
    assert forall|j: int| 0 <= j < p.len() implies s[j] != '{' by {
        assert(s[j] == p[j]);
    }
    assert(s[p.len() as int] == o[0]);
    lemma_first_index_at(s, '{', p.len() as int);
    lemma_closing_shift(p, o, q, 0);
    assert(s.subrange(p.len() as int, (p.len() + o.len()) as int) =~= o);
}

// ---------------------------------------------------------------------------
// Sanitising the applicant's answer.

/// `s` with each occurrence of `pat` replaced by `rep`, scanning left to
/// right without overlaps (`str::replace`).
pub open spec fn replace_all(s: Seq<char>, pat: Seq<char>, rep: Seq<char>) -> Seq<char>
    decreases s.len(),
{
    if s.len() == 0 {
        s
    } else if 0 < pat.len() <= s.len() && s.take(pat.len() as int) == pat {
        rep + replace_all(s.skip(pat.len() as int), pat, rep)
    } else {
        seq![s[0]] + replace_all(s.drop_first(), pat, rep)
    }
}

/// Whether a character survives sanitising: anything but a control code,
/// except newline and tab.
pub open spec fn kept(c: char) -> bool {
    !is_control_char(c) || c == '\n' || c == '\t'
}

/// `s` without the characters that `kept` rejects.
pub open spec fn strip_controls(s: Seq<char>) -> Seq<char>
    decreases s.len(),
{
    if s.len() == 0 {
        s
    } else if kept(s.last()) {
        strip_controls(s.drop_last()).push(s.last())
    } else {
        strip_controls(s.drop_last())
    }
}

/// The closing tag of the answer block.
pub open spec fn closing_tag() -> Seq<char> {
    "</user_answer>"@
}

/// What a closing tag inside an answer becomes.
pub open spec fn escaped_tag() -> Seq<char> {
    "<\\/user_answer>"@
}

/// The answer as the judge gets it: its first `MAX_ANSWER_CHARS`
/// characters, without control characters other than newline and tab, and
/// then with closing tags escaped. Escaping comes last so that removing a
/// control character cannot re-form a closing tag.
pub open spec fn sanitized(s: Seq<char>) -> Seq<char> {
    let n = if s.len() < MAX_ANSWER_CHARS { s.len() as int } else { MAX_ANSWER_CHARS as int };
    replace_all(strip_controls(s.take(n)), closing_tag(), escaped_tag())
}

/// `p` occurs in `s` at `i`.
pub open spec fn occurs_at(s: Seq<char>, p: Seq<char>, i: int) -> bool {
    0 <= i && i + p.len() <= s.len() && s.subrange(i, i + p.len()) == p
}

proof fn lemma_tag_chars()
    ensures
        closing_tag().len() == 14,
        escaped_tag().len() == 15,
        closing_tag()[0] == '<',
        closing_tag()[1] == '/',
        escaped_tag()[0] == '<',
        escaped_tag()[1] == '\\',
        forall|k: int| 1 <= k < 14 ==> closing_tag()[k] != '<',
        forall|k: int| 1 <= k < 15 ==> escaped_tag()[k] != '<',
        forall|k: int| 0 <= k < 14 ==> kept(#[trigger] closing_tag()[k]),
        forall|k: int| 0 <= k < 15 ==> kept(#[trigger] escaped_tag()[k]),
{
    reveal_strlit("</user_answer>");
    reveal_strlit("<\\/user_answer>");
}

/// If the escaped text starts with `w`, which holds no `<`, the text itself
/// started with `w`: every escape begins with `<`.
proof fn lemma_prefix_without_open(y: Seq<char>, w: Seq<char>)
    requires
        forall|k: int| 0 <= k < w.len() ==> w[k] != '<',
        w.len() <= replace_all(y, closing_tag(), escaped_tag()).len(),
        replace_all(y, closing_tag(), escaped_tag()).take(w.len() as int) == w,
    ensures
        w.len() <= y.len(),
        y.take(w.len() as int) == w,
    decreases w.len(),
{
    lemma_tag_chars();
    let r = replace_all(y, closing_tag(), escaped_tag());
    if w.len() > 0 {
        assert(r[0] == w[0]);
        if 0 < closing_tag().len() <= y.len() && y.take(14) == closing_tag() {
            assert(r[0] == escaped_tag()[0]);
        } else {
            let y1 = y.drop_first();
            let r1 = replace_all(y1, closing_tag(), escaped_tag());
            assert(r == seq![y[0]] + r1);
            let w1 = w.drop_first();
            assert(r1.take(w1.len() as int) =~= w1) by {
                assert forall|k: int| 0 <= k < w1.len() implies r1.take(w1.len() as int)[k] == w1[k] by {
                    assert(r[k + 1] == r1[k]);
                    assert(r.take(w.len() as int)[k + 1] == w[k + 1]);
                }
            }
            lemma_prefix_without_open(y1, w1);
            assert(y.take(w.len() as int) =~= w) by {
                assert forall|k: int| 0 <= k < w.len() implies y.take(w.len() as int)[k] == w[k] by {
                    if k > 0 {
                        assert(y1.take(w1.len() as int)[k - 1] == w1[k - 1]);
                    } else {
                        assert(r.take(w.len() as int)[0] == w[0]);
                    }
                }
            }
        }
    }
}

/// Escaping leaves no closing tag behind.
pub proof fn lemma_no_closing_tag_after_escape(y: Seq<char>, i: int)
    ensures
        !occurs_at(replace_all(y, closing_tag(), escaped_tag()), closing_tag(), i),
    decreases y.len(),
{
    lemma_tag_chars();
    let r = replace_all(y, closing_tag(), escaped_tag());
    let pat = closing_tag();
    if y.len() == 0 || !occurs_at(r, pat, i) {
        return;
    }
    assert(r.subrange(i, i + 14)[0] == r[i]);
    assert(r.subrange(i, i + 14)[1] == r[i + 1]);
    if 0 < pat.len() <= y.len() && y.take(14) == pat {
        let rest = replace_all(y.skip(14), pat, escaped_tag());
        assert(r == escaped_tag() + rest);
        if i >= 15 {
            lemma_no_closing_tag_after_escape(y.skip(14), i - 15);
            assert(rest.subrange(i - 15, i - 15 + 14) =~= r.subrange(i, i + 14));
        } else {
            assert(r[i] == escaped_tag()[i]);
            if i == 0 {
                assert(r[1] == escaped_tag()[1]);
            }
        }
    } else {
        let y1 = y.drop_first();
        let rest = replace_all(y1, pat, escaped_tag());
        assert(r == seq![y[0]] + rest);
        if i >= 1 {
            lemma_no_closing_tag_after_escape(y1, i - 1);
            assert(rest.subrange(i - 1, i - 1 + 14) =~= r.subrange(i, i + 14));
        } else {
            let w = pat.drop_first();
            assert(rest.take(13) =~= w) by {
                assert forall|k: int| 0 <= k < 13 implies rest.take(13)[k] == w[k] by {
                    assert(r[k + 1] == rest[k]);
                    assert(r.subrange(0, 14)[k + 1] == pat[k + 1]);
                }
            }
            lemma_prefix_without_open(y1, w);
            assert(y.take(14) =~= pat) by {
                assert forall|k: int| 0 <= k < 14 implies y.take(14)[k] == pat[k] by {
                    if k > 0 {
                        assert(y1.take(13)[k - 1] == w[k - 1]);
                    } else {
                        assert(r[0] == y[0]);
                    }
                }
            }
        }
    }
}

proof fn lemma_escape_keeps_kept(y: Seq<char>)
    requires
        forall|k: int| 0 <= k < y.len() ==> kept(#[trigger] y[k]),
    ensures
        forall|k: int| 0 <= k < replace_all(y, closing_tag(), escaped_tag()).len() ==>
            kept(#[trigger] replace_all(y, closing_tag(), escaped_tag())[k]),
    decreases y.len(),
{
    lemma_tag_chars();
    let r = replace_all(y, closing_tag(), escaped_tag());
    if y.len() > 0 {
        if 0 < closing_tag().len() <= y.len() && y.take(14) == closing_tag() {
            let y1 = y.skip(14);
            assert forall|k: int| 0 <= k < y1.len() implies kept(#[trigger] y1[k]) by {
                assert(y1[k] == y[k + 14]);
            }
            lemma_escape_keeps_kept(y1);
            let rest = replace_all(y1, closing_tag(), escaped_tag());
            assert forall|k: int| 0 <= k < r.len() implies kept(#[trigger] r[k]) by {
                if k >= 15 {
                    assert(r[k] == rest[k - 15]);
                } else {
                    assert(r[k] == escaped_tag()[k]);
                }
            }
        } else {
            let y1 = y.drop_first();
            assert forall|k: int| 0 <= k < y1.len() implies kept(#[trigger] y1[k]) by {
                assert(y1[k] == y[k + 1]);
            }
            lemma_escape_keeps_kept(y1);
            let rest = replace_all(y1, closing_tag(), escaped_tag());
            assert forall|k: int| 0 <= k < r.len() implies kept(#[trigger] r[k]) by {
                if k >= 1 {
                    assert(r[k] == rest[k - 1]);
                } else {
                    assert(r[0] == y[0]);
                }
            }
        }
    }
}

proof fn lemma_strip_output_kept(x: Seq<char>)
    ensures
        forall|k: int| 0 <= k < strip_controls(x).len() ==> kept(#[trigger] strip_controls(x)[k]),
    decreases x.len(),
{
    if x.len() > 0 {
        let p = x.drop_last();
        lemma_strip_output_kept(p);
        let sp = strip_controls(p);
        if kept(x.last()) {
            assert forall|k: int| 0 <= k < strip_controls(x).len() implies kept(#[trigger] strip_controls(x)[k]) by {
                if k < sp.len() {
                    assert(strip_controls(x)[k] == sp[k]);
                }
            }
        }
    }
}

/// No answer can close the `<user_answer>` block it is wrapped in: its
/// sanitised form holds no closing tag, and no control character other than
/// newline and tab.
pub proof fn lemma_sanitized_is_safe(s: Seq<char>)
    ensures
        forall|i: int| !occurs_at(sanitized(s), closing_tag(), i),
        forall|k: int| 0 <= k < sanitized(s).len() ==> kept(#[trigger] sanitized(s)[k]),
{
    let n = if s.len() < MAX_ANSWER_CHARS { s.len() as int } else { MAX_ANSWER_CHARS as int };
    let t = strip_controls(s.take(n));
    lemma_strip_output_kept(s.take(n));
    lemma_escape_keeps_kept(t);
    assert forall|i: int| !occurs_at(sanitized(s), closing_tag(), i) by {
        lemma_no_closing_tag_after_escape(t, i);
    }
}

/// Sanitising removes only what it must: an answer of at most
/// `MAX_ANSWER_CHARS` characters, with no control character other than
/// newline and tab and no closing tag, reaches the judge unchanged, whatever
/// script it is written in.
pub proof fn lemma_clean_answer_unchanged(s: Seq<char>)
    requires
        s.len() <= MAX_ANSWER_CHARS,
        forall|k: int| 0 <= k < s.len() ==> !is_control_char(#[trigger] s[k]) || s[k] == '\n' || s[k] == '\t',
        forall|i: int| !occurs_at(s, closing_tag(), i),
    ensures
        sanitized(s) == s,
{
    let n = if s.len() < MAX_ANSWER_CHARS { s.len() as int } else { MAX_ANSWER_CHARS as int };
    assert(s.take(n) =~= s);
    lemma_strip_keeps_clean(s);
    lemma_escape_without_tag(s);
}

/// Stripping works character by character: the stripped text of two pieces
/// is the stripped first piece followed by the stripped second, and a single
/// character stays exactly when it is not a control character, or is a
/// newline or a tab. So every other character of the answer survives, in
/// order.
pub proof fn lemma_strip_by_character(a: Seq<char>, b: Seq<char>, c: char)
    ensures
        strip_controls(a + b) == strip_controls(a) + strip_controls(b),
        (!is_control_char(c) || c == '\n' || c == '\t') ==> strip_controls(seq![c]) == seq![c],
        !(!is_control_char(c) || c == '\n' || c == '\t') ==> strip_controls(seq![c]) == Seq::<char>::empty(),
    decreases b.len(),
{
    let one = seq![c];
    assert(one.drop_last() =~= Seq::<char>::empty());
    assert(one.last() == c);
    assert(strip_controls(Seq::<char>::empty()) == Seq::<char>::empty());
    assert(Seq::<char>::empty().push(c) =~= one);
    if b.len() == 0 {
        assert(a + b =~= a);
        assert(strip_controls(a) + strip_controls(b) =~= strip_controls(a));
    } else {
        lemma_strip_by_character(a, b.drop_last(), c);
        assert((a + b).drop_last() =~= a + b.drop_last());
        assert((a + b).last() == b.last());
        if kept(b.last()) {
            assert(strip_controls(a) + strip_controls(b.drop_last()).push(b.last())
                =~= (strip_controls(a) + strip_controls(b.drop_last())).push(b.last()));
        }
    }
}

/// A closing tag in the answer is replaced by its escaped form and the rest
/// of the answer is escaped in turn; text before it that holds no `<` is
/// left as it is.
pub proof fn lemma_escape_closing_tag(a: Seq<char>, y: Seq<char>)
    requires
        forall|k: int| 0 <= k < a.len() ==> a[k] != '<',
    ensures
        replace_all(a + closing_tag() + y, closing_tag(), escaped_tag())
            == a + escaped_tag() + replace_all(y, closing_tag(), escaped_tag()),
    decreases a.len(),
{
    lemma_tag_chars();
    let t = a + closing_tag() + y;
    if a.len() == 0 {
        assert(t =~= closing_tag() + y);
        assert(t.take(14) =~= closing_tag());
        assert(t.skip(14) =~= y);
        assert(a + escaped_tag() + replace_all(y, closing_tag(), escaped_tag())
            =~= escaped_tag() + replace_all(y, closing_tag(), escaped_tag()));
    } else {
        let a1 = a.drop_first();
        assert forall|k: int| 0 <= k < a1.len() implies a1[k] != '<' by {
            assert(a1[k] == a[k + 1]);
        }
        lemma_escape_closing_tag(a1, y);
        assert(t[0] == a[0]);
        assert(t.take(14)[0] == a[0]);
        assert(t.take(14) != closing_tag());
        assert(t.drop_first() =~= a1 + closing_tag() + y);
        assert(seq![a[0]] + (a1 + escaped_tag() + replace_all(y, closing_tag(), escaped_tag()))
            =~= a + escaped_tag() + replace_all(y, closing_tag(), escaped_tag()));
    }
}

/// An answer longer than `MAX_ANSWER_CHARS` is cut there: when its first
/// `MAX_ANSWER_CHARS` characters hold no control character other than
/// newline and tab and no closing tag, the judge gets exactly those.
pub proof fn lemma_long_answer_cut(s: Seq<char>)
    requires
        s.len() >= MAX_ANSWER_CHARS,
        forall|k: int| 0 <= k < MAX_ANSWER_CHARS ==> !is_control_char(#[trigger] s[k]) || s[k] == '\n'
            || s[k] == '\t',
        forall|i: int| !occurs_at(s.take(MAX_ANSWER_CHARS as int), closing_tag(), i),
    ensures
        sanitized(s) == s.take(MAX_ANSWER_CHARS as int),
{
    let t = s.take(MAX_ANSWER_CHARS as int);
    assert forall|k: int| 0 <= k < t.len() implies !is_control_char(#[trigger] t[k]) || t[k] == '\n'
        || t[k] == '\t' by {
        assert(t[k] == s[k]);
    }
    lemma_strip_keeps_clean(t);
    lemma_escape_without_tag(t);
}

proof fn lemma_strip_keeps_clean(x: Seq<char>)
    requires
        forall|k: int| 0 <= k < x.len() ==> !is_control_char(#[trigger] x[k]) || x[k] == '\n' || x[k] == '\t',
    ensures
        strip_controls(x) == x,
    decreases x.len(),
{
    if x.len() > 0 {
        let p = x.drop_last();
        assert forall|k: int| 0 <= k < p.len() implies !is_control_char(#[trigger] p[k]) || p[k] == '\n'
            || p[k] == '\t' by {
            assert(p[k] == x[k]);
        }
        lemma_strip_keeps_clean(p);
        assert(kept(x[x.len() - 1]));
        assert(p.push(x.last()) =~= x);
    }
}

proof fn lemma_escape_without_tag(y: Seq<char>)
    requires
        forall|i: int| !occurs_at(y, closing_tag(), i),
    ensures
        replace_all(y, closing_tag(), escaped_tag()) == y,
    decreases y.len(),
{
    lemma_tag_chars();
    if y.len() > 0 {
        if 14 <= y.len() {
            assert(y.take(14) =~= y.subrange(0, 14));
            assert(!occurs_at(y, closing_tag(), 0));
        }
        let y1 = y.drop_first();
        assert forall|i: int| !occurs_at(y1, closing_tag(), i) by {
            if occurs_at(y1, closing_tag(), i) {
                assert(y1.subrange(i, i + 14) =~= y.subrange(i + 1, i + 1 + 14));
                assert(occurs_at(y, closing_tag(), i + 1));
            }
        }
        lemma_escape_without_tag(y1);
        assert(seq![y[0]] + y1 =~= y);
    }
}

fn matches_at(v: &Vec<char>, i: usize, end: usize, pat: &Vec<char>) -> (r: bool)
    requires
        i <= end <= v.len(),
    ensures
        r == (i + pat.len() <= end && v@.subrange(i as int, i + pat.len()) == pat@),
{
    if pat.len() > end - i {
        return false;
    }
    let mut k: usize = 0;
    while k < pat.len()
        invariant
            i + pat.len() <= end <= v.len(),
            k <= pat.len(),
            forall|j: int| 0 <= j < k ==> v@[i + j] == pat@[j],
        decreases pat.len() - k,
    {
        if v[i + k] != pat[k] {
            assert(v@.subrange(i as int, i + pat.len())[k as int] != pat@[k as int]);
            return false;
        }
        k += 1;
    }
    assert(v@.subrange(i as int, i + pat.len()) =~= pat@);
    true
}

/// Neutralises attempts to close the answer tag, truncates overly long
/// answers, and strips control characters that could confuse the model.
pub fn sanitize_user_answer(raw: &str) -> (r: String)
    ensures
        r@ == sanitized(raw@),
        forall|i: int| !occurs_at(r@, closing_tag(), i),
        forall|k: int| 0 <= k < r@.len() ==> kept(#[trigger] r@[k]),
{
    proof {
        lemma_sanitized_is_safe(raw@);
    }
    let v = chars_of(raw);
    let n = if v.len() < MAX_ANSWER_CHARS { v.len() } else { MAX_ANSWER_CHARS };
    let mut f: Vec<char> = Vec::new();
    let mut j: usize = 0;
    while j < n
        invariant
            n <= v.len(),
            j <= n,
            f@ == strip_controls(v@.take(n as int).take(j as int)),
        decreases n - j,
    {
        let c = v[j];
        assert(v@.take(n as int).take(j + 1).drop_last() =~= v@.take(n as int).take(j as int));
        assert(v@.take(n as int).take(j + 1).last() == c);
        if !is_control(c) || c == '\n' || c == '\t' {
            f.push(c);
        }
        j += 1;
    }
    assert(v@.take(n as int).take(n as int) =~= v@.take(n as int));
    let pat = chars_of("</user_answer>");
    let rep = chars_of("<\\/user_answer>");
    proof {
        reveal_strlit("</user_answer>");
    }
    let ghost s = f@;
    let m = f.len();
    let mut replaced: Vec<char> = Vec::new();
    let mut i: usize = 0;
    assert(s.skip(0) =~= s);
    while i < m
        invariant
            m == f.len(),
            s == f@,
            pat@ == closing_tag(),
            rep@ == escaped_tag(),
            pat@.len() == 14,
            i <= m,
            replace_all(s, pat@, rep@) == replaced@ + replace_all(s.skip(i as int), pat@, rep@),
        decreases m - i,
    {
        let ghost rest = s.skip(i as int);
        if matches_at(&f, i, m, &pat) {
            assert(rest.take(14) =~= f@.subrange(i as int, i + 14));
            assert(rest.skip(14) =~= s.skip(i + 14));
            let mut k: usize = 0;
            let ghost before = replaced@;
            while k < rep.len()
                invariant
                    k <= rep.len(),
                    replaced@ == before + rep@.take(k as int),
                decreases rep.len() - k,
            {
                replaced.push(rep[k]);
                assert(rep@.take(k + 1) =~= rep@.take(k as int).push(rep@[k as int]));
                k += 1;
            }
            assert(rep@.take(rep.len() as int) =~= rep@);
            assert(replaced@ + replace_all(s.skip(i + 14), pat@, rep@) =~= before + (rep@ + replace_all(rest.skip(14), pat@, rep@)));
            i += 14;
        } else {
            assert(rest[0] == f@[i as int]);
            proof {
                if 14 <= rest.len() {
                    assert(rest.take(14) =~= f@.subrange(i as int, i + 14));
                }
            }
            assert(rest.drop_first() =~= s.skip(i + 1));
            let ghost before = replaced@;
            replaced.push(f[i]);
            assert(replaced@ + replace_all(s.skip(i + 1), pat@, rep@) =~= before + (seq![f@[i as int]] + replace_all(rest.drop_first(), pat@, rep@)));
            i += 1;
        }
    }
    assert(s.skip(m as int).len() == 0);
    assert(replaced@ + replace_all(s.skip(m as int), pat@, rep@) =~= replaced@);
    let out = string_of_range(&replaced, 0, replaced.len());
    assert(replaced@.subrange(0, replaced.len() as int) =~= replaced@);
    assert forall|k: int| 0 <= k < out@.len() implies kept(#[trigger] out@[k]) by {
        assert(out@[k] == sanitized(raw@)[k]);
    }
    out
}

// ---------------------------------------------------------------------------
// Prompts.

/// The bullet list of earlier questions: one `- <question, trimmed>` line
/// per question, joined by newlines.
pub open spec fn bullets(qs: Seq<String>) -> Seq<char>
    decreases qs.len(),
{
    if qs.len() == 0 {
        Seq::empty()
    } else if qs.len() == 1 {
        "- "@ + trim(qs[0]@)
    } else {
        bullets(qs.drop_last()) + "\n- "@ + trim(qs.last()@)
    }
}

/// The user message that asks for a question.
pub open spec fn question_request(group_prompt: Seq<char>, recent: Seq<String>) -> Seq<char> {
    if recent.len() == 0 {
        "Group topic prompt:\n"@ + group_prompt
    } else {
        "Group topic prompt:\n"@ + group_prompt
            + "\n\nRecently-asked questions to AVOID (do not repeat or paraphrase any of these; pick a different sub-topic or angle):\n"@
            + bullets(recent)
    }
}

/// The user message for question generation: the group's prompt, and the
/// recently asked questions that the new one must differ from.
pub fn build_question_user_content(group_prompt: &str, recent_questions: &[String]) -> (r: String)
    ensures
        r@ == question_request(group_prompt@, recent_questions@),
{
    let mut out = String::from_str("Group topic prompt:\n");
    push_str(&mut out, group_prompt);
    if recent_questions.len() == 0 {
        return out;
    }
    push_str(&mut out, "\n\nRecently-asked questions to AVOID (do not repeat or paraphrase any of these; pick a different sub-topic or angle):\n");
    let ghost head = out@;
    let mut i: usize = 0;
    while i < recent_questions.len()
        invariant
            i <= recent_questions@.len(),
            out@ == head + bullets(recent_questions@.take(i as int)),
        decreases recent_questions@.len() - i,
    {
        let q = trimmed(recent_questions[i].as_str());
        let ghost prev = out@;
        if i > 0 {
            push_str(&mut out, "\n- ");
        } else {
            push_str(&mut out, "- ");
        }
        push_str(&mut out, q.as_str());
        proof {
            let t = recent_questions@.take(i + 1);
            assert(t.drop_last() =~= recent_questions@.take(i as int));
            assert(t.last() == recent_questions@[i as int]);
            if i == 0 {
                assert(recent_questions@.take(0).len() == 0);
            }
            assert(out@ =~= head + bullets(t));
        }
        i += 1;
    }
    assert(recent_questions@.take(recent_questions@.len() as int) =~= recent_questions@);
    out
}

/// The user message that asks for a verdict.
pub open spec fn verification_request(group_prompt: Seq<char>, question: Seq<char>, answer: Seq<char>) -> Seq<char> {
    "Group topic prompt:\n"@ + group_prompt + "\n\nQuestion asked:\n"@ + question
        + "\n\nApplicant's answer (untrusted):\n<user_answer>"@ + sanitized(answer) + "</user_answer>"@
}

/// The user message for answer verification: the group's prompt, the
/// question, and the sanitised answer wrapped in `<user_answer>` tags.
pub fn build_verification_user_content(group_prompt: &str, question: &str, user_answer: &str) -> (r: String)
    ensures
        r@ == verification_request(group_prompt@, question@, user_answer@),
{
    let sanitized_answer = sanitize_user_answer(user_answer);
    let mut out = String::from_str("Group topic prompt:\n");
    push_str(&mut out, group_prompt);
    push_str(&mut out, "\n\nQuestion asked:\n");
    push_str(&mut out, question);
    push_str(&mut out, "\n\nApplicant's answer (untrusted):\n<user_answer>");
    push_str(&mut out, sanitized_answer.as_str());
    push_str(&mut out, "</user_answer>");
    out
}

// ---------------------------------------------------------------------------
// Replies.

/// The question in a generation reply: the reply's content, trimmed. An
/// absent or blank reply is an error.
pub fn question_from_reply(content: Option<String>) -> (r: Result<String, Error>)
    ensures
        match content {
            Some(c) if trim(c@).len() > 0 => r matches Ok(q) && q@ == trim(c@),
            _ => r matches Err(Error::LlmVerdict(m)) && m@ == "question generation returned empty content"@,
        },
{
    let q = match content {
        Some(c) => trimmed(c.as_str()),
        None => String::new(),
    };
    if q.as_str().is_empty() {
        return Err(Error::LlmVerdict(String::from_str("question generation returned empty content")));
    }
    Ok(q)
}

/// The content of a verification reply. An absent or empty reply is an
/// error.
pub fn verdict_reply(content: Option<String>) -> (r: Result<String, Error>)
    ensures
        match content {
            Some(c) if c@.len() > 0 => r == Ok::<String, Error>(c),
            _ => r matches Err(Error::LlmVerdict(m)) && m@ == "verification returned empty content"@,
        },
{
    match content {
        Some(c) => {
            if c.as_str().is_empty() {
                Err(Error::LlmVerdict(String::from_str("verification returned empty content")))
            } else {
                Ok(c)
            }
        },
        None => Err(Error::LlmVerdict(String::from_str("verification returned empty content"))),
    }
}

/// The error for a reply without a JSON object.
pub fn missing_object_error(raw: &str) -> (e: Error)
    ensures
        e matches Error::LlmVerdict(m) && m@ == "no JSON object found in verifier reply: "@ + raw@,
{
    let mut m = String::from_str("no JSON object found in verifier reply: ");
    push_str(&mut m, raw);
    Error::LlmVerdict(m)
}

/// What a decoded verdict object gives: `Ok((verdict, reason))` when the
/// object had a string `verdict` (and a string `reason`, empty if absent),
/// or the decoder's error message.
pub open spec fn verdict_result(raw: Seq<char>, wire: Result<(Seq<char>, Seq<char>), Seq<char>>) -> Result<(bool, Seq<char>), Seq<char>> {
    match wire {
        Err(e) => Err("invalid verdict JSON: "@ + e + "; raw: "@ + raw),
        Ok((v, reason)) => {
            if v == "accept"@ {
                Ok((true, reason))
            } else if v == "reject"@ {
                Ok((false, reason))
            } else {
                Err("unexpected verdict value `"@ + v + "`"@)
            }
        },
    }
}

/// The verdict from the decoded object of reply `raw`: `accept` and
/// `reject` are the only values understood.
pub fn verdict_from_wire(raw: &str, wire: Result<(String, String), String>) -> (r: Result<Verdict, Error>)
    ensures
        match verdict_result(raw@, match wire { Ok((v, reason)) => Ok((v@, reason@)), Err(e) => Err(e@) }) {
            Ok((accept, reason)) => r matches Ok(v) && v.accept == accept && v.reason@ == reason,
            Err(m) => r matches Err(Error::LlmVerdict(x)) && x@ == m,
        },
{
    match wire {
        Err(e) => {
            let mut m = String::from_str("invalid verdict JSON: ");
            push_str(&mut m, e.as_str());
            push_str(&mut m, "; raw: ");
            push_str(&mut m, raw);
            Err(Error::LlmVerdict(m))
        },
        Ok((v, reason)) => {
            if str_eq(v.as_str(), "accept") {
                Ok(Verdict { accept: true, reason })
            } else if str_eq(v.as_str(), "reject") {
                Ok(Verdict { accept: false, reason })
            } else {
                let mut m = String::from_str("unexpected verdict value `");
                push_str(&mut m, v.as_str());
                push_str(&mut m, "`");
                Err(Error::LlmVerdict(m))
            }
        },
    }
}

} // verus!
