//! The pattern extractor: classifies a file's decoded content into a
//! three-state outcome by searching for the rating tag.
//!
//! The tag is one of two equivalent labels (an English and a Russian form),
//! then optional whitespace, then the marker `DR`, then either a run of
//! decimal digits or the literal token `ERR`. The search is case-sensitive
//! and unanchored; the first occurrence wins. Captured digits whose value
//! exceeds 254 classify as an error, exactly like the explicit token.

use vstd::prelude::*;
use vstd::utf8::{decode_utf8, valid_utf8};
use crate::outcome::{AnalysisOutcome, ScanResult, ScanTarget};
use crate::text::{chars_to_vec, lossy_decode, lossy_decoded};

verus! {

/// Whitespace accepted between the label and the `DR` marker: the Unicode
/// white-space characters, by code point.
pub open spec fn is_space(c: char) -> bool {
    let u = c as u32;
    ||| u == 0x09
    ||| u == 0x0A
    ||| u == 0x0B
    ||| u == 0x0C
    ||| u == 0x0D
    ||| u == 0x20
    ||| u == 0x85
    ||| u == 0xA0
    ||| u == 0x1680
    ||| (0x2000 <= u && u <= 0x200A)
    ||| u == 0x2028
    ||| u == 0x2029
    ||| u == 0x202F
    ||| u == 0x205F
    ||| u == 0x3000
}

/// An ASCII decimal digit.
pub open spec fn is_digit(c: char) -> bool {
    0x30 <= (c as u32) && (c as u32) <= 0x39
}

/// The numeric value of an ASCII decimal digit.
pub open spec fn digit_val(c: char) -> int {
    (c as u32) - 0x30
}

/// The English form of the rating tag's label.
pub open spec fn label_en() -> Seq<char> {
    seq!['O', 'f', 'f', 'i', 'c', 'i', 'a', 'l', ' ', 'D', 'R', ' ', 'v', 'a', 'l', 'u', 'e', ':']
}

/// The Russian form of the rating tag's label.
pub open spec fn label_ru() -> Seq<char> {
    seq![
        '\u{420}',
        '\u{435}',
        '\u{430}',
        '\u{43B}',
        '\u{44C}',
        '\u{43D}',
        '\u{44B}',
        '\u{435}',
        ' ',
        '\u{437}',
        '\u{43D}',
        '\u{430}',
        '\u{447}',
        '\u{435}',
        '\u{43D}',
        '\u{438}',
        '\u{44F}',
        ' ',
        'D',
        'R',
        ':',
    ]
}

/// The explicit error token that may stand in place of the digits.
pub open spec fn err_token() -> Seq<char> {
    seq!['E', 'R', 'R']
}

/// `lab` occurs in `s` starting at position `i`.
pub open spec fn prefix_at(s: Seq<char>, i: int, lab: Seq<char>) -> bool {
    &&& 0 <= i
    &&& i + lab.len() <= s.len()
    &&& forall|k: int| 0 <= k < lab.len() ==> s[i + k] == lab[k]
}

/// Length of the label occurring at `i`, or 0 when neither label occurs
/// there. The two labels start with distinct characters, so at most one
/// can occur at a given position.
pub open spec fn label_len_at(s: Seq<char>, i: int) -> int {
    if prefix_at(s, i, label_en()) {
        label_en().len() as int
    } else if prefix_at(s, i, label_ru()) {
        label_ru().len() as int
    } else {
        0
    }
}

/// The first position at or after `j` that does not hold whitespace.
pub open spec fn skip_spaces(s: Seq<char>, j: int) -> int
    decreases s.len() - j,
{
    if j < 0 || j >= s.len() {
        j
    } else if is_space(s[j]) {
        skip_spaces(s, j + 1)
    } else {
        j
    }
}

/// The end of the run of digits starting at `j`.
pub open spec fn digit_run_end(s: Seq<char>, j: int) -> int
    decreases s.len() - j,
{
    if j < 0 || j >= s.len() {
        j
    } else if is_digit(s[j]) {
        digit_run_end(s, j + 1)
    } else {
        j
    }
}

/// The decimal value of a run of digits, most significant first.
pub open spec fn digits_value(d: Seq<char>) -> int
    decreases d.len(),
{
    if d.len() == 0 {
        0
    } else {
        digits_value(d.drop_last()) * 10 + digit_val(d.last())
    }
}

/// After a label ending at `j`: whitespace, then `DR`, then a digit or the
/// error token.
pub open spec fn payload_at(s: Seq<char>, j: int) -> bool {
    let k = skip_spaces(s, j);
    &&& k + 1 < s.len()
    &&& s[k] == 'D'
    &&& s[k + 1] == 'R'
    &&& ((k + 2 < s.len() && is_digit(s[k + 2])) || prefix_at(s, k + 2, err_token()))
}

/// The whole rating tag occurs at position `i`.
pub open spec fn tag_at(s: Seq<char>, i: int) -> bool {
    label_len_at(s, i) != 0 && payload_at(s, i + label_len_at(s, i))
}

/// Where the captured digits or token of the tag at `i` start.
pub open spec fn capture_at(s: Seq<char>, i: int) -> int {
    skip_spaces(s, i + label_len_at(s, i)) + 2
}

/// The tag at `i` captures a run of digits (rather than the error token).
pub open spec fn captures_digits_at(s: Seq<char>, i: int) -> bool {
    let c = capture_at(s, i);
    tag_at(s, i) && c < s.len() && is_digit(s[c])
}

/// The value of the digits captured by the tag at `i`.
pub open spec fn captured_value_at(s: Seq<char>, i: int) -> int {
    let c = capture_at(s, i);
    digits_value(s.subrange(c, digit_run_end(s, c)))
}

/// What the tag occurring at `i` classifies as: digits in `0..=254` rate the
/// file; out-of-range digits and the error token are errors.
pub open spec fn outcome_at(s: Seq<char>, i: int) -> AnalysisOutcome {
    if captures_digits_at(s, i) {
        if captured_value_at(s, i) <= 254 {
            AnalysisOutcome::Rated(captured_value_at(s, i) as u8)
        } else {
            AnalysisOutcome::Error
        }
    } else {
        AnalysisOutcome::Error
    }
}

/// The classification reached by scanning for the first tag occurrence at or
/// after position `i`.
pub open spec fn classify_from(s: Seq<char>, i: int) -> AnalysisOutcome
    decreases s.len() - i,
{
    if i < 0 || i >= s.len() {
        AnalysisOutcome::Error
    } else if tag_at(s, i) {
        outcome_at(s, i)
    } else {
        classify_from(s, i + 1)
    }
}

/// The outcome the pattern assigns to decoded text: no occurrence of the tag
/// is an error; otherwise the first occurrence decides.
pub open spec fn spec_classify(s: Seq<char>) -> AnalysisOutcome {
    classify_from(s, 0)
}

fn is_space_char(c: char) -> (b: bool)
    ensures
        b == is_space(c),
{
    let u = c as u32;
    u == 0x09 || u == 0x0A || u == 0x0B || u == 0x0C || u == 0x0D || u == 0x20 || u == 0x85
        || u == 0xA0 || u == 0x1680 || (0x2000 <= u && u <= 0x200A) || u == 0x2028 || u == 0x2029
        || u == 0x202F || u == 0x205F || u == 0x3000
}

fn is_digit_char(c: char) -> (b: bool)
    ensures
        b == is_digit(c),
{
    let u = c as u32;
    0x30 <= u && u <= 0x39
}

fn label_en_chars() -> (v: Vec<char>)
    ensures
        v@ == label_en(),
{
    let v = vec![
        'O', 'f', 'f', 'i', 'c', 'i', 'a', 'l', ' ', 'D', 'R', ' ', 'v', 'a', 'l', 'u', 'e', ':',
    ];
    proof {
        assert(v@ =~= label_en());
    }
    v
}

fn label_ru_chars() -> (v: Vec<char>)
    ensures
        v@ == label_ru(),
{
    let v = vec![
        '\u{420}',
        '\u{435}',
        '\u{430}',
        '\u{43B}',
        '\u{44C}',
        '\u{43D}',
        '\u{44B}',
        '\u{435}',
        ' ',
        '\u{437}',
        '\u{43D}',
        '\u{430}',
        '\u{447}',
        '\u{435}',
        '\u{43D}',
        '\u{438}',
        '\u{44F}',
        ' ',
        'D',
        'R',
        ':',
    ];
    proof {
        assert(v@ =~= label_ru());
    }
    v
}

fn err_token_chars() -> (v: Vec<char>)
    ensures
        v@ == err_token(),
{
    let v = vec!['E', 'R', 'R'];
    proof {
        assert(v@ =~= err_token());
    }
    v
}

fn prefix_matches(s: &Vec<char>, i: usize, lab: &Vec<char>) -> (b: bool)
    requires
        i <= s@.len(),
    ensures
        b == prefix_at(s@, i as int, lab@),
{
    let n = s.len();
    if lab.len() > n - i {
        return false;
    }
    let mut k: usize = 0;
    while k < lab.len()
        invariant
            n == s@.len(),
            i + lab@.len() <= n,
            k <= lab@.len(),
            forall|t: int| 0 <= t < k ==> s@[i + t] == lab@[t],
        decreases lab@.len() - k,
    {
        if s[i + k] != lab[k] {
            return false;
        }
        k = k + 1;
    }
    true
}

fn try_match_at(
    s: &Vec<char>,
    i: usize,
    lab_en: &Vec<char>,
    lab_ru: &Vec<char>,
    err_tok: &Vec<char>,
) -> (r: Option<AnalysisOutcome>)
    requires
        i <= s@.len(),
        lab_en@ == label_en(),
        lab_ru@ == label_ru(),
        err_tok@ == err_token(),
    ensures
        r is Some <==> tag_at(s@, i as int),
        tag_at(s@, i as int) ==> r == Some(outcome_at(s@, i as int)),
        r matches Some(o) ==> o.wf() && o != AnalysisOutcome::Pending,
{
    let n = s.len();
    let lab_len: usize;
    if prefix_matches(s, i, lab_en) {
        lab_len = lab_en.len();
    } else if prefix_matches(s, i, lab_ru) {
        lab_len = lab_ru.len();
    } else {
        return None;
    }
    let j = i + lab_len;
    proof {
        assert(j as int == i + label_len_at(s@, i as int));
        assert(j <= n);
    }
    // Skip the whitespace run after the label.
    let mut k = j;
    while k < n && is_space_char(s[k])
        invariant
            j <= k <= n,
            n == s@.len(),
            skip_spaces(s@, j as int) == skip_spaces(s@, k as int),
        decreases n - k,
    {
        k = k + 1;
    }
    proof {
        assert(skip_spaces(s@, k as int) == k as int);
    }
    // The marker `DR` must follow.
    if n - k < 2 {
        return None;
    }
    if !(s[k] == 'D' && s[k + 1] == 'R') {
        return None;
    }
    let c = k + 2;
    if c < n && is_digit_char(s[c]) {
        // Parse the maximal digit run, saturating above the valid range.
        let mut e = c;
        let mut v: u32 = 0;
        while e < n && is_digit_char(s[e])
            invariant
                c <= e <= n,
                n == s@.len(),
                forall|t: int| c <= t < e ==> is_digit(s@[t]),
                digit_run_end(s@, c as int) == digit_run_end(s@, e as int),
                v <= 255,
                digits_value(s@.subrange(c as int, e as int)) <= 254 ==> v == digits_value(
                    s@.subrange(c as int, e as int),
                ),
                digits_value(s@.subrange(c as int, e as int)) > 254 <==> v == 255,
            decreases n - e,
        {
            let d = (s[e] as u32) - 0x30;
            let nv: u32 = if v > 254 {
                255
            } else if v * 10 + d > 254 {
                255
            } else {
                v * 10 + d
            };
            proof {
                assert(s@.subrange(c as int, e as int + 1).drop_last() =~= s@.subrange(
                    c as int,
                    e as int,
                ));
                assert(s@.subrange(c as int, e as int + 1).last() == s@[e as int]);
            }
            v = nv;
            e = e + 1;
        }
        proof {
            assert(digit_run_end(s@, e as int) == e as int);
            assert(captures_digits_at(s@, i as int));
            assert(captured_value_at(s@, i as int) == digits_value(
                s@.subrange(c as int, e as int),
            ));
        }
        if v <= 254 {
            Some(AnalysisOutcome::Rated(v as u8))
        } else {
            Some(AnalysisOutcome::Error)
        }
    } else {
        if prefix_matches(s, c, err_tok) {
            Some(AnalysisOutcome::Error)
        } else {
            None
        }
    }
}

/// Classifies decoded content: scans left to right for the first occurrence
/// of the rating tag and returns what it captures.
pub fn classify(content: &Vec<char>) -> (o: AnalysisOutcome)
    ensures
        o == spec_classify(content@),
        o.wf(),
        o != AnalysisOutcome::Pending,
{
    let lab_en = label_en_chars();
    let lab_ru = label_ru_chars();
    let err_tok = err_token_chars();
    let n = content.len();
    let mut i: usize = 0;
    while i < n
        invariant
            i <= n,
            n == content@.len(),
            lab_en@ == label_en(),
            lab_ru@ == label_ru(),
            err_tok@ == err_token(),
            spec_classify(content@) == classify_from(content@, i as int),
        decreases n - i,
    {
        match try_match_at(content, i, &lab_en, &lab_ru, &err_tok) {
            Some(o) => {
                return o;
            },
            None => {},
        }
        i = i + 1;
    }
    AnalysisOutcome::Error
}

/// Analyzes the raw bytes read from one file, or `None` when the read
/// failed. A failed read is an error outcome; otherwise the bytes are
/// decoded leniently and the decoded text is classified.
pub fn analyze(bytes: Option<&Vec<u8>>) -> (o: AnalysisOutcome)
    ensures
        bytes is None ==> o == AnalysisOutcome::Error,
        bytes matches Some(b) ==> o == spec_classify(lossy_decoded(b@)),
        bytes matches Some(b) ==> (valid_utf8(b@) ==> o == spec_classify(decode_utf8(b@))),
        o.wf(),
        o != AnalysisOutcome::Pending,
{
    match bytes {
        None => AnalysisOutcome::Error,
        Some(b) => {
            let text = lossy_decode(b);
            let content = chars_to_vec(text.as_str());
            classify(&content)
        },
    }
}

/// The published record for one analyzed file: the target's name and path
/// together with what its bytes classify as.
pub fn analyze_result(target: &ScanTarget, bytes: Option<&Vec<u8>>) -> (r: ScanResult)
    ensures
        r.filename == target.filename,
        r.path == target.path,
        bytes is None ==> r.outcome == AnalysisOutcome::Error,
        bytes matches Some(b) ==> r.outcome == spec_classify(lossy_decoded(b@)),
        bytes matches Some(b) ==> (valid_utf8(b@) ==> r.outcome == spec_classify(decode_utf8(b@))),
        r.outcome.wf(),
        r.outcome != AnalysisOutcome::Pending,
{
    ScanResult {
        filename: target.filename.clone(),
        path: target.path.clone(),
        outcome: analyze(bytes),
    }
}

proof fn lemma_classify_skip(s: Seq<char>, t: int, i: int)
    requires
        0 <= t <= i < s.len(),
        tag_at(s, i),
        forall|j: int| t <= j < i ==> !tag_at(s, j),
    ensures
        classify_from(s, t) == outcome_at(s, i),
    decreases i - t,
{
    if t < i {
        lemma_classify_skip(s, t + 1, i);
    }
}

/// Law: the first occurrence of the rating tag decides the outcome of the
/// whole content.
pub proof fn lemma_first_tag_decides(s: Seq<char>, i: int)
    requires
        0 <= i < s.len(),
        tag_at(s, i),
        forall|j: int| 0 <= j < i ==> !tag_at(s, j),
    ensures
        spec_classify(s) == outcome_at(s, i),
{
    lemma_classify_skip(s, 0, i);
}

/// Law: content whose first tag occurrence captures digits with value `v` in
/// `0..=254` classifies as `Rated(v)`. Content where a different occurrence
/// of the tag comes first is excluded by the premises: there the earlier
/// occurrence decides instead.
pub proof fn lemma_rated_content(s: Seq<char>, i: int, v: int)
    requires
        0 <= i < s.len(),
        tag_at(s, i),
        forall|j: int| 0 <= j < i ==> !tag_at(s, j),
        captures_digits_at(s, i),
        captured_value_at(s, i) == v,
        0 <= v <= 254,
    ensures
        spec_classify(s) == AnalysisOutcome::Rated(v as u8),
{
    lemma_first_tag_decides(s, i);
}

/// Law: content whose first tag occurrence captures the explicit error token
/// classifies as `Error`.
pub proof fn lemma_error_token_content(s: Seq<char>, i: int)
    requires
        0 <= i < s.len(),
        tag_at(s, i),
        forall|j: int| 0 <= j < i ==> !tag_at(s, j),
        !captures_digits_at(s, i),
    ensures
        spec_classify(s) == AnalysisOutcome::Error,
{
    lemma_first_tag_decides(s, i);
}

/// Law: content whose first tag occurrence captures digits beyond the valid
/// range classifies as `Error`, indistinguishable from the explicit token.
pub proof fn lemma_overflow_content(s: Seq<char>, i: int)
    requires
        0 <= i < s.len(),
        tag_at(s, i),
        forall|j: int| 0 <= j < i ==> !tag_at(s, j),
        captures_digits_at(s, i),
        captured_value_at(s, i) > 254,
    ensures
        spec_classify(s) == AnalysisOutcome::Error,
{
    lemma_first_tag_decides(s, i);
}

proof fn lemma_classify_none_from(s: Seq<char>, t: int)
    requires
        0 <= t <= s.len(),
        forall|j: int| t <= j < s.len() ==> !tag_at(s, j),
    ensures
        classify_from(s, t) == AnalysisOutcome::Error,
    decreases s.len() - t,
{
    if t < s.len() {
        lemma_classify_none_from(s, t + 1);
    }
}

/// Law: content in which the rating tag does not occur classifies as `Error`.
pub proof fn lemma_no_tag_content(s: Seq<char>)
    requires
        forall|j: int| 0 <= j < s.len() ==> !tag_at(s, j),
    ensures
        spec_classify(s) == AnalysisOutcome::Error,
{
    lemma_classify_none_from(s, 0);
}

} // verus!
