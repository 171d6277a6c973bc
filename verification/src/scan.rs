//! The file scanner: splits a file's text into lines, trims each line, and
//! keeps every line whose trimmed text starts with the selected comment
//! marker, together with its 1-based line number.

use vstd::prelude::*;
use crate::style::CommentType;
use crate::style::comment_type_to_single_line_comment;
use crate::style::spec_marker;

verus! {

/// One matching line: its trimmed text and its 1-based position in the file.
#[derive(Debug, PartialEq, Eq)]
pub struct Line {
    pub contents: String,
    pub number: u32,
}

/// The mathematical value of a [`Line`].
pub ghost struct LineModel {
    pub number: int,
    pub contents: Seq<char>,
}

impl View for Line {
    type V = LineModel;

    open spec fn view(&self) -> LineModel {
        LineModel { number: self.number as int, contents: self.contents@ }
    }
}

/// The models of a sequence of [`Line`]s, in order.
pub open spec fn line_views(v: Seq<Line>) -> Seq<LineModel> {
    Seq::new(v.len(), |i: int| v[i]@)
}

/// The characters Rust's `str::trim` removes at either end of a line.
pub open spec fn is_whitespace_char(c: char) -> bool {
    c == ' ' || c == '\t' || c == '\n' || c == '\u{000B}' || c == '\u{000C}' || c == '\r' || c
        == '\u{0085}' || c == '\u{00A0}' || c == '\u{1680}' || c == '\u{2000}' || c == '\u{2001}'
        || c == '\u{2002}' || c == '\u{2003}' || c == '\u{2004}' || c == '\u{2005}' || c
        == '\u{2006}' || c == '\u{2007}' || c == '\u{2008}' || c == '\u{2009}' || c == '\u{200A}'
        || c == '\u{2028}' || c == '\u{2029}' || c == '\u{202F}' || c == '\u{205F}' || c
        == '\u{3000}'
}

/// `s` without its leading whitespace.
pub open spec fn trim_start_spec(s: Seq<char>) -> Seq<char>
    decreases s.len(),
{
    if s.len() > 0 && is_whitespace_char(s.first()) {
        trim_start_spec(s.drop_first())
    } else {
        s
    }
}

/// `s` without its trailing whitespace.
pub open spec fn trim_end_spec(s: Seq<char>) -> Seq<char>
    decreases s.len(),
{
    if s.len() > 0 && is_whitespace_char(s.last()) {
        trim_end_spec(s.drop_last())
    } else {
        s
    }
}

/// `s` without leading or trailing whitespace, as Rust's `str::trim`.
pub open spec fn trim_spec(s: Seq<char>) -> Seq<char> {
    trim_end_spec(trim_start_spec(s))
}

fn is_whitespace(c: char) -> (b: bool)
    ensures
        b == is_whitespace_char(c),
{
    c == ' ' || c == '\t' || c == '\n' || c == '\u{000B}' || c == '\u{000C}' || c == '\r' || c
        == '\u{0085}' || c == '\u{00A0}' || c == '\u{1680}' || c == '\u{2000}' || c == '\u{2001}'
        || c == '\u{2002}' || c == '\u{2003}' || c == '\u{2004}' || c == '\u{2005}' || c
        == '\u{2006}' || c == '\u{2007}' || c == '\u{2008}' || c == '\u{2009}' || c == '\u{200A}'
        || c == '\u{2028}' || c == '\u{2029}' || c == '\u{202F}' || c == '\u{205F}' || c
        == '\u{3000}'
}

proof fn lemma_trim_start_skip(s: Seq<char>, a: int)
    requires
        0 <= a <= s.len(),
        forall|j: int| 0 <= j < a ==> is_whitespace_char(s[j]),
        a < s.len() ==> !is_whitespace_char(s[a]),
    ensures
        trim_start_spec(s) == s.skip(a),
    decreases a,
{
    if a == 0 {
        assert(s.skip(0) =~= s);
    } else {
        assert(is_whitespace_char(s[0]));
        lemma_trim_start_skip(s.drop_first(), a - 1);
        assert(s.drop_first().skip(a - 1) =~= s.skip(a));
    }
}

proof fn lemma_trim_end_take(s: Seq<char>, b: int)
    requires
        0 <= b <= s.len(),
        forall|j: int| b <= j < s.len() ==> is_whitespace_char(s[j]),
        b > 0 ==> !is_whitespace_char(s[b - 1]),
    ensures
        trim_end_spec(s) == s.take(b),
    decreases s.len() - b,
{
    if b == s.len() {
        assert(s.take(b) =~= s);
    } else {
        assert(is_whitespace_char(s.last()));
        lemma_trim_end_take(s.drop_last(), b);
        assert(s.drop_last().take(b) =~= s.take(b));
    }
}

/// The trimmed text of `s`, as an owned string.
pub fn trim_str(s: &str) -> (r: String)
    ensures
        r@ == trim_spec(s@),
{
    let n = s.unicode_len();
    let mut a: usize = 0;
    loop
        invariant
            a <= n,
            n == s@.len(),
            forall|j: int| 0 <= j < a ==> is_whitespace_char(s@[j]),
        ensures
            a <= n,
            forall|j: int| 0 <= j < a ==> is_whitespace_char(s@[j]),
            a < n ==> !is_whitespace_char(s@[a as int]),
        decreases n - a,
    {
        if a < n {
            if is_whitespace(s.get_char(a)) {
                a += 1;
            } else {
                break ;
            }
        } else {
            break ;
        }
    }
    let mut b: usize = n;
    loop
        invariant
            a <= b <= n,
            n == s@.len(),
            a < n ==> !is_whitespace_char(s@[a as int]),
            forall|j: int| b <= j < n ==> is_whitespace_char(s@[j]),
        ensures
            a <= b <= n,
            forall|j: int| b <= j < n ==> is_whitespace_char(s@[j]),
            b > a ==> !is_whitespace_char(s@[b - 1]),
        decreases b,
    {
        if b > a {
            if is_whitespace(s.get_char(b - 1)) {
                b -= 1;
            } else {
                break ;
            }
        } else {
            break ;
        }
    }
    let sub = s.substring_char(a, b);
    proof {
        lemma_trim_start_skip(s@, a as int);
        lemma_trim_end_take(s@.skip(a as int), b - a);
        assert(s@.skip(a as int).take(b - a) =~= s@.subrange(a as int, b as int));
    }
    String::from_str(sub)
}

/// The lines of `s`, split at every `'\n'`, as Rust's `split("\n")`: empty
/// text gives one empty line, and a trailing newline gives one trailing
/// empty line.
pub open spec fn split_lines(s: Seq<char>) -> Seq<Seq<char>>
    decreases s.len(),
{
    if s.len() == 0 {
        seq![Seq::<char>::empty()]
    } else if s.first() == '\n' {
        seq![Seq::<char>::empty()] + split_lines(s.drop_first())
    } else {
        let rest = split_lines(s.drop_first());
        seq![seq![s.first()] + rest.first()] + rest.drop_first()
    }
}

pub proof fn lemma_split_lines_count(s: Seq<char>)
    ensures
        1 <= split_lines(s).len() <= s.len() + 1,
    decreases s.len(),
{
    if s.len() == 0 {
    } else {
        lemma_split_lines_count(s.drop_first());
    }
}

/// Reading past `i - start` newline-free characters from position `start`
/// leaves the head line of the remaining text extended by exactly those
/// characters.
proof fn lemma_split_lines_extend(s: Seq<char>, start: int, i: int)
    requires
        0 <= start <= i <= s.len(),
        forall|j: int| start <= j < i ==> s[j] != '\n',
    ensures
        split_lines(s.skip(start)) == seq![
            s.subrange(start, i) + split_lines(s.skip(i)).first(),
        ] + split_lines(s.skip(i)).drop_first(),
    decreases i - start,
{
    let x = split_lines(s.skip(i));
    lemma_split_lines_count(s.skip(i));
    if start == i {
        assert(s.subrange(start, i) =~= Seq::<char>::empty());
        assert(s.subrange(start, i) + x.first() =~= x.first());
        assert(seq![x.first()] + x.drop_first() =~= x);
    } else {
        let tail = s.skip(start).drop_first();
        assert(tail =~= s.skip(start + 1));
        assert(s.skip(start).first() == s[start]);
        assert(s[start] != '\n');
        let r = split_lines(s.skip(start + 1));
        lemma_split_lines_extend(s, start + 1, i);
        assert(r.first() == s.subrange(start + 1, i) + x.first());
        assert(r.drop_first() =~= (seq![s.subrange(start + 1, i) + x.first()]
            + x.drop_first()).drop_first());
        assert(r.drop_first() =~= x.drop_first());
        assert(seq![s[start]] + (s.subrange(start + 1, i) + x.first()) =~= s.subrange(start, i)
            + x.first());
        assert(split_lines(s.skip(start)) == seq![seq![s.skip(start).first()] + r.first()]
            + r.drop_first());
        assert(seq![s.skip(start).first()] + r.first() =~= s.subrange(start, i) + x.first());
        assert(split_lines(s.skip(start)) =~= seq![s.subrange(start, i) + x.first()]
            + x.drop_first());
    }
}

/// The views of a sequence of owned strings, in order.
pub open spec fn string_views(v: Seq<String>) -> Seq<Seq<char>> {
    Seq::new(v.len(), |i: int| v[i]@)
}

/// Splits `s` into its lines at every `'\n'`.
pub fn split_lines_str(s: &str) -> (lines: Vec<String>)
    ensures
        string_views(lines@) == split_lines(s@),
{
    let n = s.unicode_len();
    let mut lines: Vec<String> = Vec::new();
    let mut start: usize = 0;
    let mut i: usize = 0;
    proof {
        assert(s@.skip(0) =~= s@);
        assert(string_views(lines@) =~= Seq::<Seq<char>>::empty());
        assert(string_views(lines@) + split_lines(s@.skip(0)) =~= split_lines(s@));
    }
    while i < n
        invariant
            start <= i <= n,
            n == s@.len(),
            forall|j: int| start <= j < i ==> s@[j] != '\n',
            split_lines(s@) == string_views(lines@) + split_lines(s@.skip(start as int)),
        decreases n - i,
    {
        if s.get_char(i) == '\n' {
            let piece = s.substring_char(start, i);
            let owned = String::from_str(piece);
            proof {
                lemma_split_lines_extend(s@, start as int, i as int);
                let x = split_lines(s@.skip(i as int));
                assert(s@.skip(i as int).first() == '\n');
                assert(s@.skip(i as int).drop_first() =~= s@.skip(i + 1));
                assert(x == seq![Seq::<char>::empty()] + split_lines(s@.skip(i + 1)));
                assert(x.first() =~= Seq::<char>::empty());
                assert(x.drop_first() =~= split_lines(s@.skip(i + 1)));
                assert(s@.subrange(start as int, i as int) + x.first() =~= s@.subrange(
                    start as int,
                    i as int,
                ));
                assert(string_views(lines@.push(owned)) =~= string_views(lines@) + seq![owned@]);
                assert(string_views(lines@) + (seq![s@.subrange(start as int, i as int)]
                    + split_lines(s@.skip(i + 1))) =~= (string_views(lines@) + seq![owned@])
                    + split_lines(s@.skip(i + 1)));
            }
            lines.push(owned);
            start = i + 1;
        }
        i += 1;
    }
    let piece = s.substring_char(start, n);
    let owned = String::from_str(piece);
    proof {
        lemma_split_lines_extend(s@, start as int, n as int);
        assert(s@.skip(n as int) =~= Seq::<char>::empty());
        let x = split_lines(s@.skip(n as int));
        assert(x == seq![Seq::<char>::empty()]);
        assert(s@.subrange(start as int, n as int) + x.first() =~= s@.subrange(
            start as int,
            n as int,
        ));
        assert(x.drop_first() =~= Seq::<Seq<char>>::empty());
        assert(split_lines(s@.skip(start as int)) =~= seq![owned@]);
        assert(string_views(lines@.push(owned)) =~= string_views(lines@) + seq![owned@]);
    }
    lines.push(owned);
    lines
}

/// True exactly when `p` is a prefix of `s`.
pub fn starts_with_str(s: &str, p: &str) -> (b: bool)
    ensures
        b == p@.is_prefix_of(s@),
{
    let np = p.unicode_len();
    let ns = s.unicode_len();
    if np > ns {
        return false;
    }
    let mut i: usize = 0;
    while i < np
        invariant
            i <= np,
            np == p@.len(),
            ns == s@.len(),
            np <= ns,
            forall|j: int| 0 <= j < i ==> p@[j] == s@[j],
        decreases np - i,
    {
        if p.get_char(i) != s.get_char(i) {
            proof {
                assert(s@.subrange(0, np as int)[i as int] == s@[i as int]);
            }
            return false;
        }
        i += 1;
    }
    proof {
        assert(p@ =~= s@.subrange(0, np as int));
    }
    true
}

/// True exactly when a line belongs in the result: its trimmed text starts
/// with the marker.
pub open spec fn line_matches(line: Seq<char>, marker: Seq<char>) -> bool {
    marker.is_prefix_of(trim_spec(line))
}

/// The matching lines among `lines`, in order: for every line whose trimmed
/// text starts with `marker`, one entry holding that trimmed text and the
/// line's 1-based position.
pub open spec fn matched_lines(lines: Seq<Seq<char>>, marker: Seq<char>) -> Seq<LineModel>
    decreases lines.len(),
{
    if lines.len() == 0 {
        Seq::empty()
    } else {
        let prev = matched_lines(lines.drop_last(), marker);
        if line_matches(lines.last(), marker) {
            prev.push(LineModel { number: lines.len() as int, contents: trim_spec(lines.last()) })
        } else {
            prev
        }
    }
}

/// What one whole scan of a file's text returns.
pub open spec fn scan_spec(contents: Seq<char>, marker: Seq<char>) -> Seq<LineModel> {
    matched_lines(split_lines(contents), marker)
}

/// Extracts from `contents` every line whose trimmed text starts with
/// `marker`, with its 1-based line number.
pub fn scan_contents(contents: &str, marker: &str) -> (result: Vec<Line>)
    requires
        contents@.len() < u32::MAX,
    ensures
        line_views(result@) == scan_spec(contents@, marker@),
{
    let lines = split_lines_str(contents);
    proof {
        lemma_split_lines_count(contents@);
    }
    let mut result: Vec<Line> = Vec::new();
    let mut k: usize = 0;
    proof {
        assert(line_views(result@) =~= Seq::<LineModel>::empty());
        assert(string_views(lines@).take(0) =~= Seq::<Seq<char>>::empty());
    }
    while k < lines.len()
        invariant
            k <= lines@.len(),
            string_views(lines@) == split_lines(contents@),
            lines@.len() <= contents@.len() + 1,
            contents@.len() < u32::MAX,
            line_views(result@) == matched_lines(string_views(lines@).take(k as int), marker@),
        decreases lines@.len() - k,
    {
        let trimmed = trim_str(lines[k].as_str());
        let ghost taken = string_views(lines@).take(k + 1);
        proof {
            assert(taken.drop_last() =~= string_views(lines@).take(k as int));
            assert(taken.last() == lines@[k as int]@);
        }
        if starts_with_str(trimmed.as_str(), marker) {
            let number: u32 = (k as u32) + 1;
            let line = Line { contents: trimmed, number };
            proof {
                assert(line_matches(taken.last(), marker@));
                assert(line_views(result@.push(line)) =~= line_views(result@).push(line@));
            }
            result.push(line);
        } else {
            proof {
                assert(!line_matches(taken.last(), marker@));
            }
        }
        k += 1;
    }
    proof {
        assert(string_views(lines@).take(lines@.len() as int) =~= string_views(lines@));
    }
    result
}

/// Scanning is deterministic: any two results that satisfy the contract of
/// [`scan_contents`] for the same text and the same marker are equal.
pub proof fn lemma_scan_deterministic(
    r1: Seq<LineModel>,
    r2: Seq<LineModel>,
    contents: Seq<char>,
    marker: Seq<char>,
)
    requires
        r1 == scan_spec(contents, marker),
        r2 == scan_spec(contents, marker),
    ensures
        r1 == r2,
{
}

/// What every scan result contains, and contains completely:
/// - every entry's text is the trimmed text of the line its number points at,
///   and starts with the marker;
/// - entry numbers are 1-based, within the file, and strictly increasing;
/// - every line whose trimmed text starts with the marker has an entry.
pub proof fn lemma_matched_lines_exact(lines: Seq<Seq<char>>, marker: Seq<char>)
    ensures
        forall|k: int|
            0 <= k < matched_lines(lines, marker).len() ==> {
                let e = #[trigger] matched_lines(lines, marker)[k];
                &&& 1 <= e.number <= lines.len()
                &&& e.contents == trim_spec(lines[e.number - 1])
                &&& marker.is_prefix_of(e.contents)
            },
        forall|k1: int, k2: int|
            0 <= k1 < k2 < matched_lines(lines, marker).len() ==> matched_lines(lines, marker)[k1].number
                < matched_lines(lines, marker)[k2].number,
        forall|j: int|
            0 <= j < lines.len() && #[trigger] line_matches(lines[j], marker) ==> exists|k: int|
                0 <= k < matched_lines(lines, marker).len() && #[trigger] matched_lines(
                    lines,
                    marker,
                )[k].number == j + 1,
    decreases lines.len(),
{
    if lines.len() == 0 {
    } else {
        let prev = matched_lines(lines.drop_last(), marker);
        let cur = matched_lines(lines, marker);
        lemma_matched_lines_exact(lines.drop_last(), marker);
        assert(forall|j: int|
            0 <= j < lines.len() - 1 ==> lines.drop_last()[j] == #[trigger] lines[j]);
        if line_matches(lines.last(), marker) {
            assert(cur == prev.push(
                LineModel { number: lines.len() as int, contents: trim_spec(lines.last()) },
            ));
            assert(forall|k: int| 0 <= k < prev.len() ==> cur[k] == prev[k]);
            assert(cur[prev.len() as int].number == lines.len());
            assert(forall|j: int|
                0 <= j < lines.len() - 1 && #[trigger] line_matches(lines[j], marker)
                    ==> line_matches(lines.drop_last()[j], marker));
            assert forall|j: int|
                0 <= j < lines.len() && #[trigger] line_matches(lines[j], marker) implies exists|
                k: int,
            |
                0 <= k < cur.len() && #[trigger] cur[k].number == j + 1 by {
                if j < lines.len() - 1 {
                    let k0 = choose|k0: int|
                        0 <= k0 < prev.len() && #[trigger] prev[k0].number == j + 1;
                    assert(cur[k0].number == j + 1);
                } else {
                    assert(cur[prev.len() as int].number == j + 1);
                }
            }
        } else {
            assert(cur == prev);
            assert(forall|j: int|
                0 <= j < lines.len() - 1 && #[trigger] line_matches(lines[j], marker)
                    ==> line_matches(lines.drop_last()[j], marker));
            assert forall|j: int|
                0 <= j < lines.len() && #[trigger] line_matches(lines[j], marker) implies exists|
                k: int,
            |
                0 <= k < cur.len() && #[trigger] cur[k].number == j + 1 by {
                assert(j < lines.len() - 1);
                let k0 = choose|k0: int|
                    0 <= k0 < prev.len() && #[trigger] prev[k0].number == j + 1;
                assert(cur[k0].number == j + 1);
            }
        }
    }
}

/// [`lemma_matched_lines_exact`] applied to a whole scan: every entry of
/// `scan_spec(contents, marker)` is the trimmed text of the line its 1-based
/// number points at and starts with the marker, numbers strictly increase,
/// and every matching line of the text has its entry.
pub proof fn lemma_scan_spec_exact(contents: Seq<char>, marker: Seq<char>)
    ensures
        forall|k: int|
            0 <= k < scan_spec(contents, marker).len() ==> {
                let e = #[trigger] scan_spec(contents, marker)[k];
                &&& 1 <= e.number <= split_lines(contents).len()
                &&& e.contents == trim_spec(split_lines(contents)[e.number - 1])
                &&& marker.is_prefix_of(e.contents)
            },
        forall|k1: int, k2: int|
            0 <= k1 < k2 < scan_spec(contents, marker).len() ==> scan_spec(contents, marker)[k1].number
                < scan_spec(contents, marker)[k2].number,
        forall|j: int|
            0 <= j < split_lines(contents).len() && #[trigger] line_matches(
                split_lines(contents)[j],
                marker,
            ) ==> exists|k: int|
                0 <= k < scan_spec(contents, marker).len() && #[trigger] scan_spec(
                    contents,
                    marker,
                )[k].number == j + 1,
{
    let lines = split_lines(contents);
    lemma_matched_lines_exact(lines, marker);
    assert forall|j: int|
        0 <= j < lines.len() && #[trigger] line_matches(lines[j], marker) implies exists|k: int|
        0 <= k < scan_spec(contents, marker).len() && #[trigger] scan_spec(contents, marker)[k].number
            == j + 1 by {
        let k0 = choose|k0: int|
            0 <= k0 < matched_lines(lines, marker).len() && #[trigger] matched_lines(
                lines,
                marker,
            )[k0].number == j + 1;
        assert(scan_spec(contents, marker)[k0].number == j + 1);
    }
}

/// One scanned directory entry: its path and, in ascending line order, every
/// line of it whose trimmed text starts with the run's comment marker.
#[derive(Debug, PartialEq, Eq)]
pub struct CheckedFile {
    pub path: String,
    pub comment_lines: Vec<Line>,
}

impl CheckedFile {
    /// Scans one file's full text under the selected comment style.
    pub fn check_file(path: String, contents: &str, comment_type: &CommentType) -> (r: CheckedFile)
        requires
            contents@.len() < u32::MAX,
        ensures
            r.path@ == path@,
            line_views(r.comment_lines@) == scan_spec(contents@, spec_marker(*comment_type)),
    {
        let marker = comment_type_to_single_line_comment(comment_type);
        let comment_lines = scan_contents(contents, marker);
        CheckedFile { path, comment_lines }
    }

    /// How many comment lines the scan of this file found.
    pub fn comment_count(&self) -> (n: usize)
        ensures
            n == self.comment_lines@.len(),
    {
        self.comment_lines.len()
    }
}

/// The text after the last `'/'` of `p`; all of `p` when it has none.
pub open spec fn base_name_spec(p: Seq<char>) -> Seq<char>
    decreases p.len(),
{
    if p.len() == 0 {
        p
    } else if p.last() == '/' {
        Seq::empty()
    } else {
        base_name_spec(p.drop_last()).push(p.last())
    }
}

proof fn lemma_base_name_suffix(p: Seq<char>, b: int)
    requires
        0 <= b <= p.len(),
        forall|j: int| b <= j < p.len() ==> p[j] != '/',
        b > 0 ==> p[b - 1] == '/',
    ensures
        base_name_spec(p) == p.skip(b),
    decreases p.len() - b,
{
    if b == p.len() {
        if p.len() == 0 {
            assert(p.skip(b) =~= p);
        } else {
            assert(p.skip(b) =~= Seq::<char>::empty());
        }
    } else {
        assert(p.last() != '/');
        lemma_base_name_suffix(p.drop_last(), b);
        assert(p.drop_last().skip(b).push(p.last()) =~= p.skip(b));
    }
}

/// The file name a path ends with: everything after its last `'/'`.
pub fn base_name(p: &str) -> (r: &str)
    ensures
        r@ == base_name_spec(p@),
{
    let n = p.unicode_len();
    let mut b: usize = n;
    loop
        invariant
            b <= n,
            n == p@.len(),
            forall|j: int| b <= j < n ==> p@[j] != '/',
        ensures
            b <= n,
            forall|j: int| b <= j < n ==> p@[j] != '/',
            b > 0 ==> p@[b - 1] == '/',
        decreases b,
    {
        if b > 0 {
            if p.get_char(b - 1) == '/' {
                break ;
            } else {
                b -= 1;
            }
        } else {
            break ;
        }
    }
    let r = p.substring_char(b, n);
    proof {
        lemma_base_name_suffix(p@, b as int);
        assert(p@.skip(b as int) =~= p@.subrange(b as int, n as int));
    }
    r
}

} // verus!
