//! The annotated-fixture test harness.
//!
//! A fixture is a source file with inline annotations: a comment line whose
//! text begins with a run of `^` targets the immediately preceding line,
//! the run delimiting a byte range in that line, and the trimmed text after
//! the carets giving the expected message.
//!
//! Fixtures are written in raw strings with natural indentation, so they
//! are first de-indented by the minimum leading-space count of their
//! non-blank lines, after the leading newline is consumed.
//!
//! The logic works on bytes; thin adapters accept `&str` and produce
//! `String`s.

use vstd::prelude::*;
use vstd::utf8::{encode_utf8, valid_utf8};

use crate::lint::{occurrences_ok, Occurrence};
use crate::text::{bytes_eq, copy_bytes, push_range, push_tail, string_from_utf8, string_from_utf8_or_empty};

verus! {

/// One byte is the ASCII newline.
pub open spec fn is_nl(b: u8) -> bool {
    b == 10u8
}

/// The position of the first newline in `s` at or after `from`, or the
/// length of `s` when there is none.
pub open spec fn first_nl_from(s: Seq<u8>, from: int) -> int
    decreases s.len() - from,
{
    if 0 <= from < s.len() {
        if is_nl(s[from]) {
            from
        } else {
            first_nl_from(s, from + 1)
        }
    } else {
        s.len() as int
    }
}

/// The end (exclusive) of the newline-inclusive line that starts at
/// `pos`: one past the first newline, or the end of the text.
pub open spec fn line_end_from(s: Seq<u8>, pos: int) -> int {
    let nl = first_nl_from(s, pos);
    if nl < s.len() {
        nl + 1
    } else {
        s.len() as int
    }
}

/// Find the first newline at or after `from`.
fn find_nl(s: &[u8], from: usize) -> (r: usize)
    requires
        from <= s@.len(),
    ensures
        r == first_nl_from(s@, from as int),
        from <= r <= s@.len(),
        r < s@.len() ==> is_nl(s@[r as int]),
{
    let mut k = from;
    while k < s.len()
        invariant
            from <= k <= s@.len(),
            first_nl_from(s@, from as int) == first_nl_from(s@, k as int),
            forall|j: int| from <= j < k ==> !is_nl(s@[j]),
        decreases s.len() - k,
    {
        if s[k] == 10u8 {
            return k;
        }
        k += 1;
    }
    k
}

/// One past the first newline at or after `pos`, or the end of the text:
/// the exclusive end of the line beginning at `pos`.
fn line_end(s: &[u8], pos: usize) -> (r: usize)
    requires
        pos <= s@.len(),
    ensures
        r == line_end_from(s@, pos as int),
        pos <= r <= s@.len(),
        pos < s@.len() ==> pos < r,
{
    let nl = find_nl(s, pos);
    if nl < s.len() {
        nl + 1
    } else {
        nl
    }
}

/// The end of the line that starts at a valid position lies past that
/// position and within the text.
pub proof fn lemma_line_end_bounds(s: Seq<u8>, pos: int)
    requires
        0 <= pos < s.len(),
    ensures
        pos < line_end_from(s, pos) <= s.len(),
{
    lemma_first_nl_bounds(s, pos);
}

/// The first newline at or after `from` lies between `from` and the end
/// of the text.
pub proof fn lemma_first_nl_bounds(s: Seq<u8>, from: int)
    requires
        0 <= from <= s.len(),
    ensures
        from <= first_nl_from(s, from) <= s.len(),
    decreases s.len() - from,
{
    if from < s.len() && !is_nl(s[from]) {
        lemma_first_nl_bounds(s, from + 1);
    }
}

/// A byte that `trim` treats as whitespace: space, tab, carriage return
/// or newline.
pub open spec fn is_ws(b: u8) -> bool {
    b == 32u8 || b == 9u8 || b == 13u8 || b == 10u8
}

/// A line is blank when all of its bytes are whitespace.
pub open spec fn is_blank_line(line: Seq<u8>) -> bool {
    forall|i: int| 0 <= i < line.len() ==> is_ws(#[trigger] line[i])
}

/// The number of leading space bytes of a line.
pub open spec fn leading_spaces(line: Seq<u8>) -> int
    decreases line.len(),
{
    if line.len() > 0 && line[0] == 32u8 {
        1 + leading_spaces(line.drop_first())
    } else {
        0
    }
}

/// `leading_spaces` is exactly the position of the first non-space byte.
proof fn lemma_leading_spaces_char(line: Seq<u8>, k: int)
    requires
        0 <= k <= line.len(),
        forall|j: int| 0 <= j < k ==> line[j] == 32u8,
        k < line.len() ==> line[k] != 32u8,
    ensures
        leading_spaces(line) == k,
    decreases k,
{
    if k == 0 {
    } else {
        lemma_leading_spaces_char(line.drop_first(), k - 1);
    }
}

/// The number of leading space bytes of `line`.
fn count_leading_spaces(line: &[u8]) -> (n: usize)
    ensures
        n == leading_spaces(line@),
        n <= line@.len(),
{
    let mut k: usize = 0;
    while k < line.len()
        invariant
            k <= line@.len(),
            forall|j: int| 0 <= j < k ==> line@[j] == 32u8,
        decreases line.len() - k,
    {
        if line[k] != 32u8 {
            proof {
                lemma_leading_spaces_char(line@, k as int);
            }
            return k;
        }
        k += 1;
    }
    proof {
        lemma_leading_spaces_char(line@, k as int);
    }
    k
}

/// `true` iff every byte of `line` is whitespace.
fn is_blank(line: &[u8]) -> (r: bool)
    ensures
        r == is_blank_line(line@),
{
    let mut k: usize = 0;
    while k < line.len()
        invariant
            k <= line@.len(),
            forall|j: int| 0 <= j < k ==> is_ws(#[trigger] line@[j]),
        decreases line.len() - k,
    {
        let b = line[k];
        if !(b == 32u8 || b == 9u8 || b == 13u8 || b == 10u8) {
            assert(!is_ws(line@[k as int]));
            return false;
        }
        k += 1;
    }
    true
}

/// The minimum leading-space count over the non-blank lines of the text
/// from `pos` on; `None` when every remaining line is blank.
pub open spec fn min_indent_from(s: Seq<u8>, pos: int) -> Option<int>
    decreases s.len() - pos,
{
    if 0 <= pos < s.len() {
        let e = line_end_from(s, pos);
        if pos < e <= s.len() {
            let line = s.subrange(pos, e);
            let rest = min_indent_from(s, e);
            if is_blank_line(line) {
                rest
            } else {
                match rest {
                    None => Some(leading_spaces(line)),
                    Some(m) => if leading_spaces(line) <= m {
                        Some(leading_spaces(line))
                    } else {
                        Some(m)
                    },
                }
            }
        } else {
            None
        }
    } else {
        None
    }
}

/// A line, de-indented: lines long enough lose their first `indent`
/// bytes; shorter (blank) lines lose their leading spaces.
pub open spec fn dedent_line(line: Seq<u8>, indent: int) -> Seq<u8> {
    if line.len() <= indent {
        line.subrange(leading_spaces(line), line.len() as int)
    } else {
        line.subrange(indent, line.len() as int)
    }
}

/// The text from `pos` on, with every line de-indented by `indent`.
pub open spec fn dedent_from(s: Seq<u8>, pos: int, indent: int) -> Seq<u8>
    decreases s.len() - pos,
{
    if 0 <= pos < s.len() {
        let e = line_end_from(s, pos);
        if pos < e <= s.len() {
            dedent_line(s.subrange(pos, e), indent) + dedent_from(s, e, indent)
        } else {
            Seq::empty()
        }
    } else {
        Seq::empty()
    }
}

/// The de-indented form of a fixture: the leading newline is consumed,
/// then every line loses the minimum leading-space count of the
/// non-blank lines.
pub open spec fn trim_indent_spec(s: Seq<u8>) -> Seq<u8> {
    let t = if s.len() > 0 && is_nl(s[0]) {
        s.drop_first()
    } else {
        s
    };
    let indent = match min_indent_from(t, 0) {
        None => 0,
        Some(m) => m,
    };
    dedent_from(t, 0, indent)
}



/// De-indent a fixture given as bytes: consume a leading newline, then
/// strip the minimum leading-space count of the non-blank lines from
/// every line.
pub fn trim_indent_bytes(text: &[u8]) -> (r: Vec<u8>)
    ensures
        r@ == trim_indent_spec(text@),
{
    let start: usize = if text.len() > 0 && text[0] == 10u8 {
        1
    } else {
        0
    };
    let t = &text[start..text.len()];
    proof {
        if text@.len() > 0 && is_nl(text@[0]) {
            assert(t@ =~= text@.drop_first());
        } else {
            assert(t@ =~= text@);
        }
    }
    // first pass: the minimum leading-space count of the non-blank lines
    let mut pos: usize = 0;
    let mut min_so_far: Option<usize> = None;
    while pos < t.len()
        invariant
            pos <= t@.len(),
            t@.len() <= usize::MAX,
            match min_so_far {
                None => min_indent_from(t@, 0) == min_indent_from(t@, pos as int),
                Some(m) => {
                    &&& m <= t@.len()
                    &&& min_indent_from(t@, 0) == match min_indent_from(t@, pos as int) {
                        None => Some(m as int),
                        Some(rest) => if m <= rest {
                            Some(m as int)
                        } else {
                            Some(rest)
                        },
                    }
                },
            },
        decreases t.len() - pos,
    {
        proof {
            lemma_line_end_bounds(t@, pos as int);
        }
        let e = line_end(t, pos);
        let line = &t[pos..e];
        assert(line@ =~= t@.subrange(pos as int, e as int));
        if !is_blank(line) {
            let n = count_leading_spaces(line);
            min_so_far = match min_so_far {
                None => Some(n),
                Some(m) => if n < m {
                    Some(n)
                } else {
                    Some(m)
                },
            };
        }
        pos = e;
    }
    let indent: usize = match min_so_far {
        None => 0,
        Some(m) => m,
    };
    assert(min_indent_from(t@, 0) == match min_indent_from(t@, t@.len() as int) {
        None => min_indent_from(t@, 0),
        Some(m) => min_indent_from(t@, 0),
    });
    assert(indent as int == match min_indent_from(t@, 0) {
        None => 0int,
        Some(m) => m,
    });
    // second pass: rebuild with every line de-indented
    let mut out: Vec<u8> = Vec::new();
    let mut pos: usize = 0;
    while pos < t.len()
        invariant
            pos <= t@.len(),
            out@ + dedent_from(t@, pos as int, indent as int) == dedent_from(
                t@,
                0,
                indent as int,
            ),
        decreases t.len() - pos,
    {
        proof {
            lemma_line_end_bounds(t@, pos as int);
        }
        let e = line_end(t, pos);
        let line = &t[pos..e];
        assert(line@ =~= t@.subrange(pos as int, e as int));
        let ghost out0 = out@;
        if line.len() <= indent {
            let n = count_leading_spaces(line);
            push_tail(&mut out, line, n);
        } else {
            push_tail(&mut out, line, indent);
        }
        assert(out@ == out0 + dedent_line(line@, indent as int));
        proof {
            assert(out@ + dedent_from(t@, e as int, indent as int) =~= dedent_from(
                t@,
                0,
                indent as int,
            ));
        }
        pos = e;
    }
    proof {
        assert(out@ =~= dedent_from(t@, 0, indent as int));
        assert(trim_indent_spec(text@) == dedent_from(t@, 0, indent as int));
    }
    out
}

/// The position of the first caret (`^`) in `line` at or after `from`.
pub open spec fn first_caret_from(line: Seq<u8>, from: int) -> Option<int>
    decreases line.len() - from,
{
    if 0 <= from < line.len() {
        if line[from] == 94u8 {
            Some(from)
        } else {
            first_caret_from(line, from + 1)
        }
    } else {
        None
    }
}

/// The number of consecutive carets starting at position `i` of `line`.
pub open spec fn caret_run(line: Seq<u8>, i: int) -> int
    decreases line.len() - i,
{
    if 0 <= i < line.len() && line[i] == 94u8 {
        1 + caret_run(line, i + 1)
    } else {
        0
    }
}

/// The byte range delimited by the first caret run of `line`: from the
/// first caret to one past the last caret of its run. `None` when the
/// line has no caret.
pub open spec fn range_annotation_spec(line: Seq<u8>) -> Option<(int, int)> {
    match first_caret_from(line, 0) {
        None => None,
        Some(i) => Some((i, i + caret_run(line, i))),
    }
}

/// The caret run starting inside the line ends inside the line.
proof fn lemma_caret_run_bound(line: Seq<u8>, i: int)
    requires
        0 <= i <= line.len(),
    ensures
        0 <= caret_run(line, i) <= line.len() - i,
    decreases line.len() - i,
{
    if i < line.len() && line[i] == 94u8 {
        lemma_caret_run_bound(line, i + 1);
    }
}

/// The byte range delimited by the first caret run of `line`, or `None`
/// when the line has no caret.
pub fn extract_range_annotation_bytes(line: &[u8]) -> (r: Option<(usize, usize)>)
    ensures
        match r {
            Some((a, b)) => {
                &&& range_annotation_spec(line@) == Some((a as int, b as int))
                &&& a < b <= line@.len()
            },
            None => range_annotation_spec(line@) is None,
        },
{
    let n = line.len();
    let mut k: usize = 0;
    while k < n
        invariant
            k <= n == line@.len(),
            first_caret_from(line@, 0) == first_caret_from(line@, k as int),
        decreases n - k,
    {
        if line[k] == 94u8 {
            let start = k;
            let mut m = k;
            while m < n && line[m] == 94u8
                invariant
                    start <= m <= n == line@.len(),
                    forall|j: int| start <= j < m ==> line@[j] == 94u8,
                    caret_run(line@, start as int) == (m - start) + caret_run(line@, m as int),
                decreases n - m,
            {
                m += 1;
            }
            proof {
                lemma_caret_run_bound(line@, m as int);
                assert(caret_run(line@, m as int) == 0);
            }
            return Some((start, m));
        }
        k += 1;
    }
    None
}

/// `needle` occurs in `s` starting at position `i`.
pub open spec fn matches_at(s: Seq<u8>, needle: Seq<u8>, i: int) -> bool {
    &&& 0 <= i
    &&& i + needle.len() <= s.len()
    &&& s.subrange(i, i + needle.len()) == needle
}

/// The first position at or after `from` where `needle` occurs in `s`.
pub open spec fn first_match_from(s: Seq<u8>, needle: Seq<u8>, from: int) -> Option<int>
    decreases s.len() - from,
{
    if 0 <= from && from + needle.len() <= s.len() {
        if matches_at(s, needle, from) {
            Some(from)
        } else if from < s.len() {
            first_match_from(s, needle, from + 1)
        } else {
            None
        }
    } else {
        None
    }
}

/// The first position where `needle` occurs in `s`, or `None`.
pub fn find_sub(s: &[u8], needle: &[u8]) -> (r: Option<usize>)
    ensures
        match r {
            Some(i) => {
                &&& first_match_from(s@, needle@, 0) == Some(i as int)
                &&& i + needle@.len() <= s@.len()
            },
            None => first_match_from(s@, needle@, 0) is None,
        },
{
    let n = needle.len();
    if n > s.len() {
        return None;
    }
    let limit = s.len() - n;
    let mut k: usize = 0;
    while k <= limit
        invariant
            n == needle@.len(),
            n <= s@.len(),
            s@.len() <= usize::MAX,
            limit == s@.len() - n,
            k <= limit + 1,
            first_match_from(s@, needle@, 0) == first_match_from(s@, needle@, k as int),
        decreases limit + 1 - k,
    {
        assert(k + n <= s@.len());
        let window = &s[k..k + n];
        if bytes_eq(window, needle) {
            assert(window@ =~= s@.subrange(k as int, k + needle@.len()));
            assert(matches_at(s@, needle@, k as int));
            return Some(k);
        }
        assert(window@ =~= s@.subrange(k as int, k + needle@.len()));
        assert(!matches_at(s@, needle@, k as int));
        proof {
            if n == 0 {
                assert(window@ =~= needle@);
            }
        }
        assert(n > 0 && k < s@.len());
        k += 1;
    }
    None
}

/// The position of the first non-whitespace byte of `s` at or after
/// `from`, or the length of `s`.
pub open spec fn first_non_ws(s: Seq<u8>, from: int) -> int
    decreases s.len() - from,
{
    if 0 <= from < s.len() {
        if is_ws(s[from]) {
            first_non_ws(s, from + 1)
        } else {
            from
        }
    } else {
        s.len() as int
    }
}

/// The position one past the last non-whitespace byte of `s` before
/// `upto`, or 0.
pub open spec fn scan_back_ws(s: Seq<u8>, upto: int) -> int
    decreases upto,
{
    if 0 < upto <= s.len() {
        if is_ws(s[upto - 1]) {
            scan_back_ws(s, upto - 1)
        } else {
            upto
        }
    } else {
        0
    }
}

/// `s` with leading and trailing whitespace removed.
pub open spec fn trim_spec(s: Seq<u8>) -> Seq<u8> {
    let a = first_non_ws(s, 0);
    let b = scan_back_ws(s, s.len() as int);
    if a < b {
        s.subrange(a, b)
    } else {
        Seq::empty()
    }
}

/// `true` iff the byte of `s` at `k` is whitespace.
fn ws_at(s: &[u8], k: usize) -> (r: bool)
    requires
        k < s@.len(),
    ensures
        r == is_ws(s@[k as int]),
{
    let b = s[k];
    b == 32u8 || b == 9u8 || b == 13u8 || b == 10u8
}

/// `s` with leading and trailing whitespace removed.
pub fn trim_bytes(s: &[u8]) -> (r: Vec<u8>)
    ensures
        r@ == trim_spec(s@),
{
    let mut a: usize = 0;
    while a < s.len() && ws_at(s, a)
        invariant
            a <= s@.len(),
            first_non_ws(s@, 0) == first_non_ws(s@, a as int),
        decreases s.len() - a,
    {
        a += 1;
    }
    assert(a as int == first_non_ws(s@, 0));
    let mut b: usize = s.len();
    while b > 0 && ws_at(s, b - 1)
        invariant
            b <= s@.len(),
            scan_back_ws(s@, s@.len() as int) == scan_back_ws(s@, b as int),
        decreases b,
    {
        b -= 1;
    }
    assert(b as int == scan_back_ws(s@, s@.len() as int));
    let mut out: Vec<u8> = Vec::new();
    if a < b {
        push_range(&mut out, s, a, b);
    }
    proof {
        assert(out@ =~= trim_spec(s@));
    }
    out
}

/// One annotation of a fixture: the byte range it targets, the source
/// bytes under the carets, and the expected message after them.
#[derive(Clone, Debug)]
pub struct Annotation {
    /// First byte of the annotated range, in fixture coordinates.
    pub start: usize,
    /// One past the last byte of the annotated range.
    pub end: usize,
    /// The bytes of the fixture at `[start, end)`.
    pub content: Vec<u8>,
    /// The expected message: the trimmed text after the caret run.
    pub comment: Vec<u8>,
}

/// The mathematical model of an annotation.
#[verifier::ext_equal]
pub ghost struct SpecAnnotation {
    pub start: int,
    pub end: int,
    pub content: Seq<u8>,
    pub comment: Seq<u8>,
}

impl View for Annotation {
    type V = SpecAnnotation;

    open spec fn view(&self) -> SpecAnnotation {
        SpecAnnotation {
            start: self.start as int,
            end: self.end as int,
            content: self.content@,
            comment: self.comment@,
        }
    }
}

/// The annotation carried by the line `src[pos..e]`, if any: the line
/// must contain the comment prefix followed by a caret run; the carets
/// delimit a range in the line starting at `ps` (the previous line), and
/// the trimmed text after the run is the expected message.
pub open spec fn line_annotation(src: Seq<u8>, cs: Seq<u8>, pos: int, e: int, ps: int) -> Option<
    SpecAnnotation,
> {
    let line = src.subrange(pos, e);
    match first_match_from(line, cs, 0) {
        None => None,
        Some(idx) => {
            let ao = idx + cs.len();
            match range_annotation_spec(line.subrange(ao, line.len() as int)) {
                None => None,
                Some((a, b)) => Some(
                    (SpecAnnotation {
                        start: ps + ao + a,
                        end: ps + ao + b,
                        content: src.subrange(ps + ao + a, ps + ao + b),
                        comment: trim_spec(line.subrange(ao + b, line.len() as int)),
                    }),
                ),
            }
        },
    }
}

/// All annotations of `src` from position `pos` on; `prev` is the start
/// of the line before `pos`. An annotation on the very first line has no
/// line to target and is ignored.
pub open spec fn annotations_from(src: Seq<u8>, cs: Seq<u8>, pos: int, prev: Option<int>) -> Seq<
    SpecAnnotation,
>
    decreases src.len() - pos,
{
    if 0 <= pos < src.len() {
        let e = line_end_from(src, pos);
        if pos < e <= src.len() {
            let rest = annotations_from(src, cs, e, Some(pos));
            match prev {
                None => rest,
                Some(ps) => match line_annotation(src, cs, pos, e, ps) {
                    None => rest,
                    Some(a) => seq![a] + rest,
                },
            }
        } else {
            Seq::empty()
        }
    } else {
        Seq::empty()
    }
}

/// All annotations of the fixture `src`, given the comment prefix `cs`,
/// in line order.
pub open spec fn annotations_spec(src: Seq<u8>, cs: Seq<u8>) -> Seq<SpecAnnotation> {
    annotations_from(src, cs, 0, None)
}

/// Extract every annotation of the fixture `src`: a comment line whose
/// text starts with a caret run delimits a byte range in the previous
/// line; the trimmed text after the run is the expected message.
pub fn extract_annotations_bytes(src: &[u8], comment_start: &[u8]) -> (r: Vec<Annotation>)
    ensures
        r@.map_values(|a: Annotation| a@) =~= annotations_spec(src@, comment_start@),
        forall|k: int|
            0 <= k < r@.len() ==> (#[trigger] r@[k]).start <= r@[k].end <= src@.len(),
{
    let mut out: Vec<Annotation> = Vec::new();
    let mut pos: usize = 0;
    let mut prev: Option<usize> = None;
    while pos < src.len()
        invariant
            pos <= src@.len(),
            match prev {
                None => pos == 0,
                Some(p) => p < pos,
            },
            out@.map_values(|a: Annotation| a@) + annotations_from(
                src@,
                comment_start@,
                pos as int,
                match prev {
                    None => None::<int>,
                    Some(p) => Some(p as int),
                },
            ) =~= annotations_spec(src@, comment_start@),
            forall|k: int|
                0 <= k < out@.len() ==> (#[trigger] out@[k]).start <= out@[k].end <= src@.len(),
        decreases src.len() - pos,
    {
        proof {
            lemma_line_end_bounds(src@, pos as int);
        }
        let e = line_end(src, pos);
        let line = &src[pos..e];
        assert(line@ =~= src@.subrange(pos as int, e as int));
        let ghost gprev = match prev {
            None => None::<int>,
            Some(p) => Some(p as int),
        };
        match prev {
            None => {},
            Some(ps) => {
                match find_sub(line, comment_start) {
                    None => {
                        assert(line_annotation(src@, comment_start@, pos as int, e as int, ps as int)
                            is None);
                    },
                    Some(idx) => {
                        let ao = idx + comment_start.len();
                        let tail = &line[ao..line.len()];
                        assert(tail@ =~= line@.subrange(ao as int, line@.len() as int));
                        match extract_range_annotation_bytes(tail) {
                            None => {
                                assert(line_annotation(
                                    src@,
                                    comment_start@,
                                    pos as int,
                                    e as int,
                                    ps as int,
                                ) is None);
                            },
                            Some((a, b)) => {
                                let start = ps + ao + a;
                                let end = ps + ao + b;
                                assert(end <= src@.len()) by {
                                    assert(ao + b <= line@.len());
                                    assert(ps < pos);
                                    assert(pos + line@.len() == e as int);
                                }
                                let mut content: Vec<u8> = Vec::new();
                                push_range(&mut content, src, start, end);
                                assert(content@ =~= src@.subrange(start as int, end as int));
                                let ctail = &line[ao + b..line.len()];
                                assert(ctail@ =~= line@.subrange((ao + b) as int, line@.len() as int));
                                let comment = trim_bytes(ctail);
                                let ann = Annotation { start, end, content, comment };
                                proof {
                                    assert(line_annotation(
                                        src@,
                                        comment_start@,
                                        pos as int,
                                        e as int,
                                        ps as int,
                                    ) == Some(ann@));
                                }
                                let ghost out0 = out@;
                                out.push(ann);
                                proof {
                                    assert(out@.map_values(|x: Annotation| x@) =~= out0.map_values(
                                        |x: Annotation| x@,
                                    ).push(ann@));
                                    assert(out@.map_values(|x: Annotation| x@)
                                        + annotations_from(
                                        src@,
                                        comment_start@,
                                        e as int,
                                        Some(pos as int),
                                    ) =~= annotations_spec(src@, comment_start@));
                                }
                            },
                        }
                    },
                }
            },
        }
        prev = Some(pos);
        pos = e;
    }
    proof {
        assert(out@.map_values(|a: Annotation| a@) =~= annotations_spec(src@, comment_start@));
    }
    out
}





/// De-indent a fixture: consume a leading newline, then strip the
/// minimum leading-space count of the non-blank lines from every line.
///
/// The de-indented bytes are always a selection of the input's bytes; in
/// the unusual case that they are not valid UTF-8 on their own, the
/// input is returned unchanged.
pub fn trim_indent(text: &str) -> (r: String)
    ensures
        ({
            let out = trim_indent_spec(encode_utf8(text@));
            &&& valid_utf8(out) ==> encode_utf8(r@) == out
            &&& !valid_utf8(out) ==> r@ == text@
        }),
{
    let bytes = trim_indent_bytes(text.as_bytes());
    match string_from_utf8(bytes) {
        Some(s) => s,
        None => text.to_owned(),
    }
}

/// The byte range delimited by the first caret run of `line`: from the
/// first caret to one past the last caret of its run. `None` when the
/// line has no caret.
pub fn extract_range_annotation(line: &str) -> (r: Option<(usize, usize)>)
    ensures
        match r {
            Some(rg) => range_annotation_spec(encode_utf8(line@)) == Some(
                (rg.0 as int, rg.1 as int),
            ),
            None => range_annotation_spec(encode_utf8(line@)) is None,
        },
{
    extract_range_annotation_bytes(line.as_bytes())
}

/// Extract every annotation of the fixture `src`: each element pairs the
/// annotated byte range and the source text under the carets with the
/// expected message after the caret run.
pub fn extract_annotations(src: &str, comment_start: &str) -> (r: Vec<
    (((usize, usize), String), String),
>)
    ensures
        ({
            let sa = annotations_spec(encode_utf8(src@), encode_utf8(comment_start@));
            &&& r@.len() == sa.len()
            &&& forall|k: int|
                0 <= k < sa.len() ==> {
                    &&& (#[trigger] r@[k]).0.0.0 as int == sa[k].start
                    &&& r@[k].0.0.1 as int == sa[k].end
                    &&& (valid_utf8(sa[k].content) ==> encode_utf8(r@[k].0.1@) == sa[k].content)
                    &&& (valid_utf8(sa[k].comment) ==> encode_utf8(r@[k].1@) == sa[k].comment)
                }
        }),
{
    let annos = extract_annotations_bytes(src.as_bytes(), comment_start.as_bytes());
    let ghost sa = annotations_spec(encode_utf8(src@), encode_utf8(comment_start@));
    let mut out: Vec<(((usize, usize), String), String)> = Vec::new();
    let mut k: usize = 0;
    while k < annos.len()
        invariant
            k <= annos@.len(),
            annos@.map_values(|a: Annotation| a@) =~= sa,
            out@.len() == k,
            forall|j: int|
                0 <= j < k ==> {
                    &&& (#[trigger] out@[j]).0.0.0 as int == sa[j].start
                    &&& out@[j].0.0.1 as int == sa[j].end
                    &&& (valid_utf8(sa[j].content) ==> encode_utf8(out@[j].0.1@) == sa[j].content)
                    &&& (valid_utf8(sa[j].comment) ==> encode_utf8(out@[j].1@) == sa[j].comment)
                },
        decreases annos.len() - k,
    {
        let a = &annos[k];
        let content = string_from_utf8_or_empty(copy_bytes(&a.content));
        let comment = string_from_utf8_or_empty(copy_bytes(&a.comment));
        out.push((((a.start, a.end), content), comment));
        k += 1;
    }
    out
}




/// Law of the harness: an annotation agrees with an occurrence when the
/// expected message equals the occurrence's message, the annotated byte
/// range equals the occurrence's byte range, and the source under that
/// range equals the annotated content.
pub open spec fn annotation_matches(a: SpecAnnotation, o: Occurrence, src: Seq<u8>) -> bool {
    &&& a.comment == encode_utf8(o.message@)
    &&& a.start == o.at.start_byte && a.end == o.at.end_byte
    &&& src.subrange(o.at.start_byte as int, o.at.end_byte as int) == a.content
}

/// Law of the harness: a fixture is accepted exactly when there are as
/// many occurrences as annotations and the k-th annotation agrees with
/// the k-th occurrence, for every k.
pub open spec fn annotations_match_spec(
    anns: Seq<SpecAnnotation>,
    occs: Seq<Occurrence>,
    src: Seq<u8>,
) -> bool {
    &&& anns.len() == occs.len()
    &&& forall|k: int| 0 <= k < anns.len() ==> annotation_matches(anns[k], #[trigger] occs[k], src)
}

/// Compare a fixture's annotations against the analysis, pairwise and in
/// order: `true` exactly when the counts agree and every annotation's
/// range, covered text, and message agree with its occurrence.
pub fn annotations_match(
    annotations: &Vec<Annotation>,
    occurrences: &Vec<Occurrence>,
    src: &[u8],
) -> (ok: bool)
    requires
        occurrences_ok(occurrences@, src@.len() as int),
        forall|k: int|
            0 <= k < annotations@.len() ==> (#[trigger] annotations@[k]).start
                <= annotations@[k].end <= src@.len(),
    ensures
        ok == annotations_match_spec(
            annotations@.map_values(|a: Annotation| a@),
            occurrences@,
            src@,
        ),
{
    let ghost anns = annotations@.map_values(|a: Annotation| a@);
    if annotations.len() != occurrences.len() {
        return false;
    }
    let mut k: usize = 0;
    while k < annotations.len()
        invariant
            k <= annotations@.len(),
            anns == annotations@.map_values(|a: Annotation| a@),
            anns.len() == occurrences@.len(),
            occurrences_ok(occurrences@, src@.len() as int),
            forall|j: int|
                0 <= j < annotations@.len() ==> (#[trigger] annotations@[j]).start
                    <= annotations@[j].end <= src@.len(),
            forall|j: int| 0 <= j < k ==> annotation_matches(anns[j], #[trigger] occurrences@[j], src@),
        decreases annotations.len() - k,
    {
        let a = &annotations[k];
        let o = &occurrences[k];
        assert(occurrences@[k as int].at.end_byte <= src@.len());
        if !bytes_eq(a.comment.as_slice(), o.message.as_str().as_bytes()) {
            assert(!annotation_matches(anns[k as int], occurrences@[k as int], src@));
            return false;
        }
        if !(a.start == o.at.start_byte && a.end == o.at.end_byte) {
            assert(!annotation_matches(anns[k as int], occurrences@[k as int], src@));
            return false;
        }
        let covered = &src[o.at.start_byte..o.at.end_byte];
        assert(covered@ =~= src@.subrange(o.at.start_byte as int, o.at.end_byte as int));
        if !bytes_eq(covered, a.content.as_slice()) {
            assert(!annotation_matches(anns[k as int], occurrences@[k as int], src@));
            return false;
        }
        assert(annotation_matches(anns[k as int], occurrences@[k as int], src@));
        k += 1;
    }
    true
}

} // verus!
