//! Wavefront OBJ text parsing: line classification, whitespace and slash
//! tokenization, and the element parsers that fill a `WavefrontObj`.
//!
//! Everything textual is specified over the line's character sequence; only
//! the conversion of a word to an arbitrary `FromStr` scalar is delegated to
//! the standard library.

use vstd::prelude::*;

use core::str::FromStr;

verus! {

/// Relies on `String::push_str`: appends the given slice's characters to
/// the string.
pub assume_specification[ String::push_str ](s: &mut String, other: &str)
    ensures
        final(s)@ == old(s)@ + other@,
;

/// A parsing failure, carrying the offending line.
#[derive(Debug, Clone, PartialEq, Eq)]
pub enum WavefrontError {
    InvalidLineData(String),
    InvalidFaceData(String),
    InvalidGroupeNameData(String),
    InvalidNameData(String),
    MultipleNamesDefined(String, String),
}

/// An OBJ polyline element: vertex indices, and texture coordinate indices
/// when every vertex carried one.
#[derive(Debug, Clone, PartialEq, Eq)]
pub struct WavefrontLine {
    pub vertex_indices: Vec<i32>,
    pub texture_vertex_indices: Option<Vec<i32>>,
}

/// An OBJ face element: vertex indices, and texture and normal indices when
/// every corner carried them.
#[derive(Debug, Clone, PartialEq, Eq)]
pub struct WavefrontFace {
    pub vertex_indices: Vec<i32>,
    pub texture_vertex_indices: Option<Vec<i32>>,
    pub normal_vertex_indices: Option<Vec<i32>>,
}

/// A named group covering a range of geometric vertices.
#[derive(Debug, Clone, PartialEq, Eq)]
pub struct WavefrontGroup {
    pub name: String,
    pub start_index: usize,
    pub end_index: usize,
}

/// The kind of statement an OBJ line opens with.
#[derive(Debug, Clone, Copy, PartialEq, Eq)]
pub enum WaveFrontLineType {
    GeoVert,
    TextureVert,
    VertNorm,
    ParamSpaceVert,
    Cstype,
    Degree,
    BasisMat,
    StepSize,
    Point,
    Line,
    Face,
    Curve,
    Curve2,
    Surface,
    ParamValues,
    OuterTrimLoop,
    InnerTrimLoop,
    SpecialCurv,
    SpecialPoint,
    EndStatement,
    Connect,
    GroupName,
    SmoothGroup,
    MergGroupe,
    ObjectName,
    Empty,
    Unknown,
    Comment,
}

/// What `line_type` decides, stated over the line's characters: the
/// statement kind given by the two-character keyword opening the line.
pub open spec fn spec_line_type(s: Seq<char>) -> WaveFrontLineType {
    if s.len() < 2 {
        WaveFrontLineType::Empty
    } else {
        let c0 = s[0];
        let c1 = s[1];
        if c0 == 'v' && c1 == ' ' {
            WaveFrontLineType::GeoVert
        } else if c0 == 'v' && c1 == 't' {
            WaveFrontLineType::TextureVert
        } else if c0 == 'v' && c1 == 'n' {
            WaveFrontLineType::VertNorm
        } else if c0 == 'v' && c1 == 'p' {
            WaveFrontLineType::ParamSpaceVert
        } else if c0 == 'c' && c1 == 's' {
            WaveFrontLineType::Cstype
        } else if c0 == 'd' && c1 == 'e' {
            WaveFrontLineType::Degree
        } else if c0 == 'b' && c1 == 'm' {
            WaveFrontLineType::BasisMat
        } else if c0 == 's' && c1 == 't' {
            WaveFrontLineType::StepSize
        } else if c0 == 'p' && c1 == ' ' {
            WaveFrontLineType::Point
        } else if c0 == 'l' && c1 == ' ' {
            WaveFrontLineType::Line
        } else if c0 == 'f' && c1 == ' ' {
            WaveFrontLineType::Face
        } else if c0 == 'c' && c1 == 'u' {
            if s.len() < 6 {
                WaveFrontLineType::Unknown
            } else if s[2] == 'r' && s[3] == 'v' && s[4] == 'e' && s[5] == ' ' {
                WaveFrontLineType::Curve
            } else if s[2] == 'r' && s[3] == 'v' && s[4] == 'e' && s[5] == '2' {
                WaveFrontLineType::Curve2
            } else {
                WaveFrontLineType::Unknown
            }
        } else if c0 == 's' && c1 == 'u' {
            WaveFrontLineType::Surface
        } else if c0 == 'p' && c1 == 'a' {
            WaveFrontLineType::ParamValues
        } else if c0 == 't' && c1 == 'r' {
            WaveFrontLineType::OuterTrimLoop
        } else if c0 == 'h' && c1 == 'o' {
            WaveFrontLineType::InnerTrimLoop
        } else if c0 == 's' && c1 == 'c' {
            WaveFrontLineType::SpecialCurv
        } else if c0 == 's' && c1 == 'p' {
            WaveFrontLineType::SpecialPoint
        } else if c0 == 'e' && c1 == 'n' {
            WaveFrontLineType::EndStatement
        } else if c0 == 'c' && c1 == 'o' {
            WaveFrontLineType::Connect
        } else if c0 == 'g' && c1 == ' ' {
            WaveFrontLineType::GroupName
        } else if c0 == 's' && c1 == ' ' {
            WaveFrontLineType::SmoothGroup
        } else if c0 == 'm' && c1 == 'g' {
            WaveFrontLineType::MergGroupe
        } else if c0 == 'o' && c1 == ' ' {
            WaveFrontLineType::ObjectName
        } else if c0 == '#' {
            WaveFrontLineType::Comment
        } else {
            WaveFrontLineType::Unknown
        }
    }
}

/// Classifies a line of OBJ text by its opening keyword.
pub fn line_type(line: &str) -> (r: WaveFrontLineType)
    ensures
        r == spec_line_type(line@),
{
    let n = line.unicode_len();
    if n < 2 {
        return WaveFrontLineType::Empty;
    }
    let c0 = line.get_char(0);
    let c1 = line.get_char(1);
    if c0 == 'v' && c1 == ' ' {
        WaveFrontLineType::GeoVert
    } else if c0 == 'v' && c1 == 't' {
        WaveFrontLineType::TextureVert
    } else if c0 == 'v' && c1 == 'n' {
        WaveFrontLineType::VertNorm
    } else if c0 == 'v' && c1 == 'p' {
        WaveFrontLineType::ParamSpaceVert
    } else if c0 == 'c' && c1 == 's' {
        WaveFrontLineType::Cstype
    } else if c0 == 'd' && c1 == 'e' {
        WaveFrontLineType::Degree
    } else if c0 == 'b' && c1 == 'm' {
        WaveFrontLineType::BasisMat
    } else if c0 == 's' && c1 == 't' {
        WaveFrontLineType::StepSize
    } else if c0 == 'p' && c1 == ' ' {
        WaveFrontLineType::Point
    } else if c0 == 'l' && c1 == ' ' {
        WaveFrontLineType::Line
    } else if c0 == 'f' && c1 == ' ' {
        WaveFrontLineType::Face
    } else if c0 == 'c' && c1 == 'u' {
        if n < 6 {
            WaveFrontLineType::Unknown
        } else {
            let c2 = line.get_char(2);
            let c3 = line.get_char(3);
            let c4 = line.get_char(4);
            let c5 = line.get_char(5);
            if c2 == 'r' && c3 == 'v' && c4 == 'e' && c5 == ' ' {
                WaveFrontLineType::Curve
            } else if c2 == 'r' && c3 == 'v' && c4 == 'e' && c5 == '2' {
                WaveFrontLineType::Curve2
            } else {
                WaveFrontLineType::Unknown
            }
        }
    } else if c0 == 's' && c1 == 'u' {
        WaveFrontLineType::Surface
    } else if c0 == 'p' && c1 == 'a' {
        WaveFrontLineType::ParamValues
    } else if c0 == 't' && c1 == 'r' {
        WaveFrontLineType::OuterTrimLoop
    } else if c0 == 'h' && c1 == 'o' {
        WaveFrontLineType::InnerTrimLoop
    } else if c0 == 's' && c1 == 'c' {
        WaveFrontLineType::SpecialCurv
    } else if c0 == 's' && c1 == 'p' {
        WaveFrontLineType::SpecialPoint
    } else if c0 == 'e' && c1 == 'n' {
        WaveFrontLineType::EndStatement
    } else if c0 == 'c' && c1 == 'o' {
        WaveFrontLineType::Connect
    } else if c0 == 'g' && c1 == ' ' {
        WaveFrontLineType::GroupName
    } else if c0 == 's' && c1 == ' ' {
        WaveFrontLineType::SmoothGroup
    } else if c0 == 'm' && c1 == 'g' {
        WaveFrontLineType::MergGroupe
    } else if c0 == 'o' && c1 == ' ' {
        WaveFrontLineType::ObjectName
    } else if c0 == '#' {
        WaveFrontLineType::Comment
    } else {
        WaveFrontLineType::Unknown
    }
}

/// Whitespace for tokenization purposes.
pub open spec fn is_space_char(c: char) -> bool {
    c == ' ' || c == '\t' || c == '\n' || c == '\r' || c == '\u{b}' || c == '\u{c}'
}

/// First position at or after `i` holding whitespace (or the end).
pub open spec fn spec_word_end(s: Seq<char>, i: int) -> int
    decreases s.len() - i when 0 <= i <= s.len()
{
    if i >= s.len() || is_space_char(s[i]) {
        i
    } else {
        spec_word_end(s, i + 1)
    }
}

/// `spec_word_end` stays between its start and the end of the text, and
/// moves strictly forward from a non-space character.
pub proof fn lemma_word_end_bounds(s: Seq<char>, i: int)
    requires
        0 <= i <= s.len(),
    ensures
        i <= spec_word_end(s, i) <= s.len(),
        i < s.len() && !is_space_char(s[i]) ==> spec_word_end(s, i) > i,
    decreases s.len() - i,
{
    if i < s.len() && !is_space_char(s[i]) {
        lemma_word_end_bounds(s, i + 1);
    }
}

/// The whitespace-separated words of `s`, scanning from position `i`.
pub open spec fn spec_words_from(s: Seq<char>, i: int) -> Seq<Seq<char>>
    decreases s.len() - i when 0 <= i <= s.len() via spec_words_from_decreases
{
    if i >= s.len() {
        Seq::empty()
    } else if is_space_char(s[i]) {
        spec_words_from(s, i + 1)
    } else {
        seq![s.subrange(i, spec_word_end(s, i))] + spec_words_from(s, spec_word_end(s, i))
    }
}

#[via_fn]
proof fn spec_words_from_decreases(s: Seq<char>, i: int) {
    if 0 <= i <= s.len() && i < s.len() && !is_space_char(s[i]) {
        lemma_word_end_bounds(s, i);
    }
}

/// The whitespace-separated words of `s`, in order, none empty.
pub open spec fn spec_words(s: Seq<char>) -> Seq<Seq<char>> {
    spec_words_from(s, 0)
}

/// A scan that saw no space until `j` and a space (or the end) at `j` has
/// found the word end.
proof fn lemma_word_end_is(s: Seq<char>, i: int, j: int)
    requires
        0 <= i <= j <= s.len(),
        forall|k: int| i <= k < j ==> !is_space_char(s[k]),
        j == s.len() || is_space_char(s[j]),
    ensures
        spec_word_end(s, i) == j,
    decreases j - i,
{
    if i < j {
        lemma_word_end_is(s, i + 1, j);
    }
}

/// Whether the character at position `j` is tokenization whitespace.
fn is_space_at(line: &str, j: usize) -> (r: bool)
    requires
        j < line@.len(),
    ensures
        r == is_space_char(line@[j as int]),
{
    let c = line.get_char(j);
    c == ' ' || c == '\t' || c == '\n' || c == '\r' || c == '\u{b}' || c == '\u{c}'
}

/// Splits a line into its whitespace-separated words.
pub fn split_words(line: &str) -> (r: Vec<String>)
    ensures
        r@.len() == spec_words(line@).len(),
        forall|j: int| 0 <= j < r@.len() ==> (#[trigger] r@[j])@ == spec_words(line@)[j],
{
    let n = line.unicode_len();
    let mut r: Vec<String> = Vec::new();
    let mut i: usize = 0;
    while i < n
        invariant
            n == line@.len(),
            i <= n,
            r@.map_values(|w: String| w@) + spec_words_from(line@, i as int) == spec_words(line@),
        decreases n - i,
    {
        if is_space_at(line, i) {
            i = i + 1;
        } else {
            // scan to the end of the word
            let mut j = i + 1;
            while j < n && !is_space_at(line, j)
                invariant
                    n == line@.len(),
                    i < j <= n,
                    forall|k: int| i <= k < j ==> !is_space_char(line@[k]),
                decreases n - j,
            {
                j = j + 1;
            }
            proof {
                lemma_word_end_is(line@, i as int, j as int);
            }
            let ghost prev = r@;
            let word = line.substring_char(i, j).to_owned();
            r.push(word);
            proof {
                assert(r@.map_values(|w: String| w@) =~= prev.map_values(|w: String| w@).push(
                    word@,
                ));
                assert(seq![line@.subrange(i as int, j as int)] + spec_words_from(line@, j as int)
                    == spec_words_from(line@, i as int));
                assert(r@.map_values(|w: String| w@) + spec_words_from(line@, j as int)
                    =~= spec_words(line@));
            }
            i = j;
        }
    }
    r
}

/// The value of one decimal digit.
pub open spec fn spec_digit(c: char) -> Option<int> {
    if c == '0' {
        Some(0)
    } else if c == '1' {
        Some(1)
    } else if c == '2' {
        Some(2)
    } else if c == '3' {
        Some(3)
    } else if c == '4' {
        Some(4)
    } else if c == '5' {
        Some(5)
    } else if c == '6' {
        Some(6)
    } else if c == '7' {
        Some(7)
    } else if c == '8' {
        Some(8)
    } else if c == '9' {
        Some(9)
    } else {
        None
    }
}

/// The value of an all-digit run folded left onto `acc`; nothing when any
/// character is not a digit.
pub open spec fn spec_digits_val(s: Seq<char>, acc: int) -> Option<int>
    decreases s.len(),
{
    if s.len() == 0 {
        Some(acc)
    } else {
        match spec_digit(s[0]) {
            Some(d) => spec_digits_val(s.subrange(1, s.len() as int), acc * 10 + d),
            None => None,
        }
    }
}

/// Folding digits never shrinks a nonnegative accumulator.
proof fn lemma_digits_val_mono(s: Seq<char>, acc: int)
    requires
        acc >= 0,
    ensures
        spec_digits_val(s, acc) matches Some(v) ==> v >= acc,
    decreases s.len(),
{
    if s.len() > 0 {
        match spec_digit(s[0]) {
            Some(d) => {
                assert(acc * 10 + d >= acc) by (nonlinear_arith)
                    requires
                        acc >= 0,
                        d >= 0,
                ;
                lemma_digits_val_mono(s.subrange(1, s.len() as int), acc * 10 + d);
            },
            None => {},
        }
    }
}

/// What this library accepts as an unsigned decimal numeral: an optional
/// plus sign, then at least one digit, valued within `u32`.
pub open spec fn spec_parse_u32(s: Seq<char>) -> Option<u32> {
    let ds = if s.len() > 0 && s[0] == '+' {
        s.subrange(1, s.len() as int)
    } else {
        s
    };
    if ds.len() == 0 {
        None
    } else {
        match spec_digits_val(ds, 0) {
            Some(v) => if v <= u32::MAX {
                Some(v as u32)
            } else {
                None
            },
            None => None,
        }
    }
}

/// What this library accepts as a signed decimal numeral: an optional sign,
/// then at least one digit, valued within `i32`.
pub open spec fn spec_parse_i32(s: Seq<char>) -> Option<i32> {
    if s.len() == 0 {
        None
    } else {
        let neg = s[0] == '-';
        let ds = if s[0] == '-' || s[0] == '+' {
            s.subrange(1, s.len() as int)
        } else {
            s
        };
        if ds.len() == 0 {
            None
        } else {
            match spec_digits_val(ds, 0) {
                Some(v) => {
                    let sv = if neg {
                        -v
                    } else {
                        v
                    };
                    if i32::MIN <= sv <= i32::MAX {
                        Some(sv as i32)
                    } else {
                        None
                    }
                },
                None => None,
            }
        }
    }
}

/// The digit at position `i`, read as an executable value.
fn digit_at(w: &str, i: usize) -> (r: Option<u32>)
    requires
        i < w@.len(),
    ensures
        match r {
            Some(d) => spec_digit(w@[i as int]) == Some(d as int),
            None => spec_digit(w@[i as int]) is None,
        },
{
    let c = w.get_char(i);
    if c == '0' {
        Some(0)
    } else if c == '1' {
        Some(1)
    } else if c == '2' {
        Some(2)
    } else if c == '3' {
        Some(3)
    } else if c == '4' {
        Some(4)
    } else if c == '5' {
        Some(5)
    } else if c == '6' {
        Some(6)
    } else if c == '7' {
        Some(7)
    } else if c == '8' {
        Some(8)
    } else if c == '9' {
        Some(9)
    } else {
        None
    }
}

/// Folds the digits of `w` from position `start` on, stopping early — with
/// the same outcome the specification gives — on a non-digit or a value
/// already past `cap`.
fn fold_digits(w: &str, start: usize, cap: u64) -> (r: Option<u64>)
    requires
        start <= w@.len(),
        0 < cap <= 4294967296,
    ensures
        match r {
            Some(v) => spec_digits_val(w@.subrange(start as int, w@.len() as int), 0) == Some(
                v as int,
            ) && v <= cap,
            None => (match spec_digits_val(w@.subrange(start as int, w@.len() as int), 0) {
                Some(v) => v > cap,
                None => true,
            }),
        },
{
    let n = w.unicode_len();
    let ghost ds = w@.subrange(start as int, w@.len() as int);
    let mut acc: u64 = 0;
    let mut i = start;
    while i < n
        invariant
            start <= i <= n,
            n == w@.len(),
            ds == w@.subrange(start as int, w@.len() as int),
            0 < cap <= 4294967296,
            acc <= cap,
            spec_digits_val(ds, 0) == spec_digits_val(
                w@.subrange(i as int, w@.len() as int),
                acc as int,
            ),
        decreases n - i,
    {
        let ghost cur = w@.subrange(i as int, w@.len() as int);
        let d = match digit_at(w, i) {
            Some(d) => d,
            None => {
                return None;
            },
        };
        proof {
            assert(cur.subrange(1, cur.len() as int) =~= w@.subrange(
                i + 1 as int,
                w@.len() as int,
            ));
        }
        let next = acc * 10 + d as u64;
        if next > cap {
            // whatever digits follow, the value stays past the cap
            proof {
                lemma_digits_val_mono(
                    w@.subrange(i + 1 as int, w@.len() as int),
                    acc as int * 10 + d as int,
                );
            }
            return None;
        }
        acc = next;
        i = i + 1;
    }
    proof {
        assert(w@.subrange(n as int, w@.len() as int) =~= Seq::<char>::empty());
    }
    Some(acc)
}

/// Reads an unsigned decimal numeral: an optional plus sign, then at least
/// one digit, rejected when malformed or out of `u32`'s range.
pub fn parse_u32(w: &str) -> (r: Option<u32>)
    ensures
        r == spec_parse_u32(w@),
{
    let n = w.unicode_len();
    let start: usize = if n > 0 && w.get_char(0) == '+' {
        1
    } else {
        0
    };
    if start >= n {
        return None;
    }
    proof {
        if start == 0 {
            assert(w@.subrange(0, w@.len() as int) =~= w@);
        }
    }
    match fold_digits(w, start, 4294967295) {
        Some(v) => Some(v as u32),
        None => None,
    }
}

/// Reads a signed decimal numeral: an optional sign, then at least one
/// digit, rejected when malformed or out of `i32`'s range.
pub fn parse_i32(w: &str) -> (r: Option<i32>)
    ensures
        r == spec_parse_i32(w@),
{
    let n = w.unicode_len();
    if n == 0 {
        return None;
    }
    let c0 = w.get_char(0);
    let neg = c0 == '-';
    let start: usize = if c0 == '-' || c0 == '+' {
        1
    } else {
        0
    };
    if start >= n {
        return None;
    }
    proof {
        if start == 0 {
            assert(w@.subrange(0, w@.len() as int) =~= w@);
        }
    }
    if neg {
        match fold_digits(w, start, 2147483648) {
            Some(v) => Some((-(v as i64)) as i32),
            None => None,
        }
    } else {
        match fold_digits(w, start, 2147483647) {
            Some(v) => Some(v as i32),
            None => None,
        }
    }
}

/// Converts one word to any `FromStr` scalar.
/// Relies on `str::parse`, whose outcome depends on the scalar type's
/// `FromStr` implementation; nothing further is assumed of it.
#[verifier::external_body]
pub(crate) fn parse_word<T: FromStr>(word: &str) -> Option<T> {
    word.parse().ok()
}

/// Moves a vector of exactly `N` elements into an array, keeping order.
/// Relies on `TryInto` from `Vec` to an array, which succeeds exactly at
/// the matching length.
#[verifier::external_body]
fn vec_into_array<T, const N: usize>(v: Vec<T>) -> (r: [T; N])
    requires
        v@.len() == N,
    ensures
        r@ == v@,
{
    v.try_into().ok().unwrap()
}

/// A line with any trailing carriage return removed.
pub open spec fn spec_rstrip_cr(s: Seq<char>) -> Seq<char> {
    if s.len() > 0 && s[s.len() - 1] == '\r' {
        s.subrange(0, s.len() - 1)
    } else {
        s
    }
}

/// The values of the `Some` entries, kept in order.
pub open spec fn spec_somes<T>(s: Seq<Option<T>>) -> Seq<T>
    decreases s.len(),
{
    if s.len() == 0 {
        Seq::empty()
    } else {
        match s[0] {
            Some(v) => seq![v] + spec_somes(s.subrange(1, s.len() as int)),
            None => spec_somes(s.subrange(1, s.len() as int)),
        }
    }
}

/// Dropping the `None` entries never lengthens a sequence.
pub proof fn lemma_somes_len<T>(s: Seq<Option<T>>)
    ensures
        spec_somes(s).len() <= s.len(),
    decreases s.len(),
{
    if s.len() > 0 {
        lemma_somes_len(s.subrange(1, s.len() as int));
    }
}

/// Keeps the values of the `Some` entries, in order: how a run of optional
/// parse results becomes the list of values that parsed.
pub fn keep_some<T: Copy>(opts: Vec<Option<T>>) -> (r: Vec<T>)
    ensures
        r@ == spec_somes(opts@),
{
    let mut r: Vec<T> = Vec::new();
    let mut i: usize = 0;
    proof {
        assert(opts@.subrange(0, opts@.len() as int) =~= opts@);
        assert(Seq::<T>::empty() + spec_somes(opts@) =~= spec_somes(opts@));
    }
    while i < opts.len()
        invariant
            i <= opts@.len(),
            spec_somes(opts@) == r@ + spec_somes(opts@.subrange(i as int, opts@.len() as int)),
        decreases opts@.len() - i,
    {
        let ghost cur = opts@.subrange(i as int, opts@.len() as int);
        proof {
            assert(cur.subrange(1, cur.len() as int) =~= opts@.subrange(
                i + 1 as int,
                opts@.len() as int,
            ));
        }
        match opts[i] {
            Some(v) => {
                let ghost prev = r@;
                r.push(v);
                proof {
                    assert(prev + (seq![v] + spec_somes(
                        opts@.subrange(i + 1 as int, opts@.len() as int),
                    )) =~= r@ + spec_somes(opts@.subrange(i + 1 as int, opts@.len() as int)));
                }
            },
            None => {},
        }
        i = i + 1;
    }
    proof {
        assert(opts@.subrange(opts@.len() as int, opts@.len() as int) =~= Seq::<Option<
            T,
        >>::empty());
        assert(r@ + Seq::<T>::empty() =~= r@);
    }
    r
}

/// Lays the first `N` of the `Some` values into an array, in order, filling
/// every remaining slot with `default`.
pub fn take_or_default<T: Copy, const N: usize>(opts: Vec<Option<T>>, default: T) -> (r: [T; N])
    ensures
        r@.len() == N,
        forall|j: int|
            0 <= j < N ==> r@[j] == (if j < spec_somes(opts@).len() {
                spec_somes(opts@)[j]
            } else {
                default
            }),
{
    let vals = keep_some(opts);
    let mut out: Vec<T> = Vec::new();
    let mut j: usize = 0;
    while j < N
        invariant
            j <= N,
            out@.len() == j,
            vals@ == spec_somes(opts@),
            forall|k: int|
                0 <= k < j ==> out@[k] == (if k < vals@.len() {
                    vals@[k]
                } else {
                    default
                }),
        decreases N - j,
    {
        if j < vals.len() {
            out.push(vals[j]);
        } else {
            out.push(default);
        }
        j = j + 1;
    }
    vec_into_array(out)
}

/// Parses a line's words, left to right: words that do not parse are
/// skipped without consuming a slot, at most `N` values are kept, and every
/// remaining slot holds `default`. The parsed values themselves come from
/// the scalar type's own reading of each word, which this library does not
/// model; the slot layout over those outcomes is exact (`take_or_default`).
pub fn parse_array_with_default<T: Copy + FromStr, const N: usize>(line: &str, default: T) -> (r:
    [T; N])
    ensures
        r@.len() == N,
        forall|j: int| spec_words(line@).len() <= j < N ==> r@[j] == default,
{
    let words = split_words(line);
    let opts = parse_words::<T>(&words);
    proof {
        lemma_somes_len(opts@);
    }
    take_or_default(opts, default)
}

/// Parses every word of a line that converts to the scalar type, keeping
/// input order and dropping words that do not parse. The values come from
/// the scalar type's own reading of each word; the kept-in-order layout
/// over those outcomes is exact (`keep_some`).
pub fn parse_vec<T: FromStr + Copy>(line: &str) -> (r: Vec<T>)
    ensures
        r@.len() <= spec_words(line@).len(),
{
    let words = split_words(line);
    let opts = parse_words::<T>(&words);
    proof {
        lemma_somes_len(opts@);
    }
    keep_some(opts)
}

/// Runs the scalar type's reading over each word, in order.
fn parse_words<T: FromStr>(words: &Vec<String>) -> (r: Vec<Option<T>>)
    ensures
        r@.len() == words@.len(),
{
    let mut r: Vec<Option<T>> = Vec::new();
    let mut i: usize = 0;
    while i < words.len()
        invariant
            i <= words@.len(),
            r@.len() == i,
        decreases words@.len() - i,
    {
        r.push(parse_word::<T>(words[i].as_str()));
        i = i + 1;
    }
    r
}


/// First position at or after `i` holding the character `c` (or the end).
pub open spec fn spec_find_char(s: Seq<char>, c: char, i: int) -> int
    decreases s.len() - i when 0 <= i <= s.len()
{
    if i >= s.len() || s[i] == c {
        i
    } else {
        spec_find_char(s, c, i + 1)
    }
}

/// `spec_find_char` stays between its start and the end of the text.
pub proof fn lemma_find_char_bounds(s: Seq<char>, c: char, i: int)
    requires
        0 <= i <= s.len(),
    ensures
        i <= spec_find_char(s, c, i) <= s.len(),
        spec_find_char(s, c, i) < s.len() ==> s[spec_find_char(s, c, i)] == c,
        forall|k: int| i <= k < spec_find_char(s, c, i) ==> s[k] != c,
    decreases s.len() - i,
{
    if i < s.len() && s[i] != c {
        lemma_find_char_bounds(s, c, i + 1);
    }
}

/// A scan that saw no `c` until `j`, with `c` (or the end) at `j`, has
/// found the first occurrence.
proof fn lemma_find_char_is(s: Seq<char>, c: char, i: int, j: int)
    requires
        0 <= i <= j <= s.len(),
        forall|k: int| i <= k < j ==> s[k] != c,
        j == s.len() || s[j] == c,
    ensures
        spec_find_char(s, c, i) == j,
    decreases j - i,
{
    if i < j {
        lemma_find_char_is(s, c, i + 1, j);
    }
}

/// Position of the first occurrence of `c` in `line` (its length if none).
pub(crate) fn find_char_from(line: &str, c: char, start: usize) -> (r: usize)
    requires
        start <= line@.len(),
    ensures
        r == spec_find_char(line@, c, start as int),
{
    let n = line.unicode_len();
    let mut j = start;
    while j < n && line.get_char(j) != c
        invariant
            n == line@.len(),
            start <= j <= n,
            forall|k: int| start <= k < j ==> line@[k] != c,
        decreases n - j,
    {
        j = j + 1;
    }
    proof {
        lemma_find_char_is(line@, c, start as int, j as int);
    }
    j
}

/// The segments of `s` between occurrences of `c`, scanning from `i`:
/// empty segments are kept, so there is one more segment than separators.
pub open spec fn spec_split_from(s: Seq<char>, c: char, i: int) -> Seq<Seq<char>>
    decreases s.len() - i when 0 <= i <= s.len() via spec_split_from_decreases
{
    let e = spec_find_char(s, c, i);
    if e >= s.len() {
        seq![s.subrange(i, s.len() as int)]
    } else {
        seq![s.subrange(i, e)] + spec_split_from(s, c, e + 1)
    }
}

#[via_fn]
proof fn spec_split_from_decreases(s: Seq<char>, c: char, i: int) {
    if 0 <= i <= s.len() {
        lemma_find_char_bounds(s, c, i);
    }
}

/// The `c`-separated segments of `s`, empty segments kept.
pub open spec fn spec_split_char(s: Seq<char>, c: char) -> Seq<Seq<char>> {
    spec_split_from(s, c, 0)
}

/// Splits at every occurrence of `c`, keeping empty segments.
pub fn split_char(line: &str, c: char) -> (r: Vec<String>)
    ensures
        r@.map_values(|w: String| w@) == spec_split_char(line@, c),
        r@.len() >= 1,
{
    let n = line.unicode_len();
    let mut r: Vec<String> = Vec::new();
    let mut i: usize = 0;
    loop
        invariant
            n == line@.len(),
            i <= n,
            r@.map_values(|w: String| w@) + spec_split_from(line@, c, i as int) == spec_split_char(
                line@,
                c,
            ),
        decreases n - i,
    {
        let e = find_char_from(line, c, i);
        proof {
            lemma_find_char_bounds(line@, c, i as int);
        }
        let ghost prev = r@;
        let seg = line.substring_char(i, e).to_owned();
        r.push(seg);
        proof {
            assert(r@.map_values(|w: String| w@) =~= prev.map_values(|w: String| w@).push(seg@));
        }
        if e >= n {
            proof {
                assert(r@.map_values(|w: String| w@) + Seq::<Seq<char>>::empty() =~= r@.map_values(
                    |w: String| w@,
                ));
                assert(spec_split_from(line@, c, i as int) =~= seq![
                    line@.subrange(i as int, n as int),
                ]);
            }
            return r;
        }
        proof {
            assert(spec_split_from(line@, c, i as int) =~= seq![
                line@.subrange(i as int, e as int),
            ] + spec_split_from(line@, c, e + 1));
            assert(r@.map_values(|w: String| w@) + spec_split_from(line@, c, e + 1 as int)
                =~= spec_split_char(line@, c));
        }
        i = e + 1;
    }
}

/// `Some` of all the values when every entry is `Some`, `None` otherwise:
/// how optional per-corner indices become one optional index list.
pub fn collect_options(v: Vec<Option<i32>>) -> (r: Option<Vec<i32>>)
    ensures
        match r {
            Some(out) => out@.len() == v@.len() && (forall|j: int|
                0 <= j < v@.len() ==> v@[j] == Some(#[trigger] out@[j])),
            None => exists|j: int| 0 <= j < v@.len() && v@[j] is None,
        },
{
    let mut out: Vec<i32> = Vec::new();
    let mut i: usize = 0;
    while i < v.len()
        invariant
            i <= v@.len(),
            out@.len() == i,
            forall|j: int| 0 <= j < i ==> v@[j] == Some(#[trigger] out@[j]),
        decreases v@.len() - i,
    {
        match v[i] {
            Some(x) => out.push(x),
            None => {
                return None;
            },
        }
        i = i + 1;
    }
    Some(out)
}

/// The items an element statement declares, scanning the line's words from
/// position `i`: a word starting with the keyword is skipped, a word
/// starting `#` ends the scan, and any other word contributes its
/// slash-separated fields — the first must be a signed numeral, the second
/// and third are kept when present and numeric. Nothing comes out when some
/// word's first field fails to parse.
pub open spec fn spec_element_items(ws: Seq<Seq<char>>, i: int, kw: char) -> Option<
    Seq<(i32, Option<i32>, Option<i32>)>,
>
    decreases ws.len() - i when 0 <= i <= ws.len()
{
    if i >= ws.len() {
        Some(Seq::empty())
    } else {
        let w = ws[i];
        if w.len() > 0 && w[0] == kw {
            spec_element_items(ws, i + 1, kw)
        } else if w.len() > 0 && w[0] == '#' {
            Some(Seq::empty())
        } else {
            let parts = spec_split_char(w, '/');
            match spec_parse_i32(parts[0]) {
                None => None,
                Some(v) => match spec_element_items(ws, i + 1, kw) {
                    None => None,
                    Some(rest) => Some(
                        seq![
                            (
                                v,
                                if parts.len() >= 2 {
                                    spec_parse_i32(parts[1])
                                } else {
                                    None
                                },
                                if parts.len() >= 3 {
                                    spec_parse_i32(parts[2])
                                } else {
                                    None
                                },
                            ),
                        ] + rest,
                    ),
                },
            }
        }
    }
}

/// Scans the element items of a statement's words, building the index list
/// and the per-word optional second and third fields. Returns the items in
/// word order exactly as `spec_element_items` describes them, or reports
/// that some word's first field failed.
#[verifier::rlimit(50)]
fn scan_element_items(words: &Vec<String>, kw: char) -> (r: Result<
    (Vec<i32>, Vec<Option<i32>>, Vec<Option<i32>>),
    (),
>)
    ensures
        ({
            let ws = words@.map_values(|w: String| w@);
            match r {
                Ok((vs, ts, ns)) => spec_element_items(ws, 0, kw) matches Some(items) && {
                    &&& vs@.len() == items.len()
                    &&& ts@.len() == items.len()
                    &&& ns@.len() == items.len()
                    &&& forall|j: int|
                        0 <= j < items.len() ==> (#[trigger] items[j]) == (vs@[j], ts@[j], ns@[j])
                },
                Err(_) => spec_element_items(ws, 0, kw) is None,
            }
        }),
{
    let ghost ws = words@.map_values(|w: String| w@);
    let mut vs: Vec<i32> = Vec::new();
    let mut ts: Vec<Option<i32>> = Vec::new();
    let mut ns: Vec<Option<i32>> = Vec::new();
    let ghost mut items_done: Seq<(i32, Option<i32>, Option<i32>)> = Seq::empty();
    let mut stopped = false;
    let mut i: usize = 0;
    while i < words.len() && !stopped
        invariant
            ws == words@.map_values(|w: String| w@),
            i <= words@.len(),
            vs@.len() == items_done.len(),
            ts@.len() == items_done.len(),
            ns@.len() == items_done.len(),
            forall|j: int|
                0 <= j < items_done.len() ==> (#[trigger] items_done[j]) == (vs@[j], ts@[j], ns@[j]),
            stopped ==> spec_element_items(ws, 0, kw) == Some(items_done),
            !stopped ==> ((spec_element_items(ws, i as int, kw) matches Some(rest)
                ==> spec_element_items(ws, 0, kw) == Some(items_done + rest)) && (
            spec_element_items(ws, i as int, kw) is None ==> spec_element_items(ws, 0, kw)
                is None)),
        decreases
                words@.len() - i,
                (if stopped {
                    0int
                } else {
                    1
                }),
    {
        let word = &words[i];
        proof {
            assert(ws[i as int] == word@);
        }
        let wlen = word.as_str().unicode_len();
        let c0 = if wlen > 0 {
            word.as_str().get_char(0)
        } else {
            ' '
        };
        if wlen > 0 && c0 == kw {
            i = i + 1;
        } else if wlen > 0 && c0 == '#' {
            proof {
                assert(spec_element_items(ws, i as int, kw) == Some(
                    Seq::<(i32, Option<i32>, Option<i32>)>::empty(),
                ));
                assert(items_done + Seq::<(i32, Option<i32>, Option<i32>)>::empty()
                    =~= items_done);
            }
            stopped = true;
        } else {
            let parts = split_char(word.as_str(), '/');
            proof {
                assert(parts@.map_values(|w: String| w@) == spec_split_char(word@, '/'));
                assert(parts@[0]@ == spec_split_char(word@, '/')[0]);
            }
            let v = match parse_i32(parts[0].as_str()) {
                Some(v) => v,
                None => {
                    return Err(());
                },
            };
            let second: Option<i32> = if parts.len() >= 2 {
                proof {
                    assert(parts@[1]@ == spec_split_char(word@, '/')[1]);
                }
                parse_i32(parts[1].as_str())
            } else {
                None
            };
            let third: Option<i32> = if parts.len() >= 3 {
                proof {
                    assert(parts@[2]@ == spec_split_char(word@, '/')[2]);
                }
                parse_i32(parts[2].as_str())
            } else {
                None
            };
            vs.push(v);
            ts.push(second);
            ns.push(third);
            proof {
                let prev_done = items_done;
                items_done = items_done.push((v, second, third));
                match spec_element_items(ws, i + 1 as int, kw) {
                    Some(rest2) => {
                        assert(spec_element_items(ws, i as int, kw) == Some(
                            seq![(v, second, third)] + rest2,
                        ));
                        assert(prev_done + (seq![(v, second, third)] + rest2) =~= items_done
                            + rest2);
                    },
                    None => {
                        assert(spec_element_items(ws, i as int, kw) is None);
                    },
                }
            }
            i = i + 1;
        }
    }
    proof {
        if !stopped {
            assert(spec_element_items(ws, i as int, kw) == Some(
                Seq::<(i32, Option<i32>, Option<i32>)>::empty(),
            ));
            assert(items_done + Seq::<(i32, Option<i32>, Option<i32>)>::empty() =~= items_done);
        }
    }
    Ok((vs, ts, ns))
}

/// The polyline element built from the given items: the vertex indices in
/// order, and the texture list exactly when every item carried a second
/// field.
pub open spec fn spec_line_matches(
    wl: WavefrontLine,
    items: Seq<(i32, Option<i32>, Option<i32>)>,
) -> bool {
    &&& wl.vertex_indices@.len() == items.len()
    &&& forall|j: int| 0 <= j < items.len() ==> #[trigger] wl.vertex_indices@[j] == items[j].0
    &&& match wl.texture_vertex_indices {
        Some(tv) => tv@.len() == items.len() && (forall|j: int|
            0 <= j < items.len() ==> (#[trigger] items[j]).1 == Some(tv@[j])),
        None => exists|j: int| 0 <= j < items.len() && (#[trigger] items[j]).1 is None,
    }
}

/// The face element built from the given items: like the polyline relation,
/// with the normal list over the items' third fields.
pub open spec fn spec_face_matches(
    wf: WavefrontFace,
    items: Seq<(i32, Option<i32>, Option<i32>)>,
) -> bool {
    &&& wf.vertex_indices@.len() == items.len()
    &&& forall|j: int| 0 <= j < items.len() ==> #[trigger] wf.vertex_indices@[j] == items[j].0
    &&& match wf.texture_vertex_indices {
        Some(tv) => tv@.len() == items.len() && (forall|j: int|
            0 <= j < items.len() ==> (#[trigger] items[j]).1 == Some(tv@[j])),
        None => exists|j: int| 0 <= j < items.len() && (#[trigger] items[j]).1 is None,
    }
    &&& match wf.normal_vertex_indices {
        Some(nv) => nv@.len() == items.len() && (forall|j: int|
            0 <= j < items.len() ==> (#[trigger] items[j]).2 == Some(nv@[j])),
        None => exists|j: int| 0 <= j < items.len() && (#[trigger] items[j]).2 is None,
    }
}

/// Parses an OBJ polyline statement: every word after the leading `l` is
/// `v` or `v/vt`; each vertex index is the word's first slash-field as a
/// signed numeral, and the texture list is kept only when every word
/// carried a numeric second field. The error, raised exactly when some
/// word's vertex index does not parse, carries the offending line.
pub fn parse_linetype(line: &str) -> (r: Result<WavefrontLine, WavefrontError>)
    ensures
        match r {
            Ok(wl) => spec_element_items(spec_words(line@), 0, 'l') matches Some(items)
                && spec_line_matches(wl, items),
            Err(e) => spec_element_items(spec_words(line@), 0, 'l') is None && (e matches
                WavefrontError::InvalidLineData(s) && s@ == line@),
        },
{
    let words = split_words(line);
    proof {
        assert(words@.map_values(|w: String| w@) =~= spec_words(line@));
    }
    match scan_element_items(&words, 'l') {
        Ok((vertex_indices, texture_opts, _)) => {
            let ghost items = spec_element_items(spec_words(line@), 0, 'l')->Some_0;
            proof {
                assert forall|j: int| 0 <= j < items.len() implies (#[trigger] items[j]).0
                    == vertex_indices@[j] && items[j].1 == texture_opts@[j] by {}
            }
            let texture_vertex_indices = collect_options(texture_opts);
            proof {
                match &texture_vertex_indices {
                    Some(tv) => {},
                    None => {
                        let jw = choose|j: int|
                            0 <= j < texture_opts@.len() && texture_opts@[j] is None;
                        assert(items[jw].1 is None);
                    },
                }
            }
            Ok(WavefrontLine { vertex_indices, texture_vertex_indices })
        },
        Err(_) => Err(WavefrontError::InvalidLineData(line.to_owned())),
    }
}

/// Parses an OBJ face statement: every word after the leading `f` is
/// `v`, `v/vt`, `v//vn`, or `v/vt/vn`; each vertex index is the word's
/// first slash-field as a signed numeral, and the texture and normal lists
/// are kept only when every corner carried the matching numeric field. The
/// error, raised exactly when some corner's vertex index does not parse,
/// carries the offending line.
pub fn parse_facetype(line: &str) -> (r: Result<WavefrontFace, WavefrontError>)
    ensures
        match r {
            Ok(wf) => spec_element_items(spec_words(line@), 0, 'f') matches Some(items)
                && spec_face_matches(wf, items),
            Err(e) => spec_element_items(spec_words(line@), 0, 'f') is None && (e matches
                WavefrontError::InvalidLineData(s) && s@ == line@),
        },
{
    let words = split_words(line);
    proof {
        assert(words@.map_values(|w: String| w@) =~= spec_words(line@));
    }
    match scan_element_items(&words, 'f') {
        Ok((vertex_indices, texture_opts, normal_opts)) => {
            let ghost items = spec_element_items(spec_words(line@), 0, 'f')->Some_0;
            proof {
                assert forall|j: int| 0 <= j < items.len() implies (#[trigger] items[j]).0
                    == vertex_indices@[j] && items[j].1 == texture_opts@[j] && items[j].2
                    == normal_opts@[j] by {}
            }
            let texture_vertex_indices = collect_options(texture_opts);
            let normal_vertex_indices = collect_options(normal_opts);
            proof {
                match &texture_vertex_indices {
                    Some(tv) => {},
                    None => {
                        let jw = choose|j: int|
                            0 <= j < texture_opts@.len() && texture_opts@[j] is None;
                        assert(items[jw].1 is None);
                    },
                }
                match &normal_vertex_indices {
                    Some(nv) => {},
                    None => {
                        let jw = choose|j: int|
                            0 <= j < normal_opts@.len() && normal_opts@[j] is None;
                        assert(items[jw].2 is None);
                    },
                }
            }
            Ok(WavefrontFace { vertex_indices, texture_vertex_indices, normal_vertex_indices })
        },
        Err(_) => Err(WavefrontError::InvalidLineData(line.to_owned())),
    }
}

/// Everything an OBJ text can declare, collected statement by statement.
/// The scalar type of the vertex data is generic; whoever reads the file
/// decides how coordinates are represented.
#[derive(Debug, Clone)]
pub struct WavefrontObj<T> {
    pub geometric_vertices: Vec<[T; 4]>,
    pub texture_vertices: Vec<[T; 3]>,
    pub vertex_normals: Vec<[T; 3]>,
    pub parameter_space_vertices: Vec<[T; 3]>,
    pub points: Vec<Vec<i32>>,
    pub line: Vec<WavefrontLine>,
    pub face: Vec<WavefrontFace>,
    pub groups: Vec<WavefrontGroup>,
    pub object_name: Option<String>,
    pub comments: Vec<String>,
}

impl<T> WavefrontObj<T> {
    /// An object with nothing declared yet.
    pub fn empty() -> (r: Self)
        ensures
            r.geometric_vertices@.len() == 0,
            r.texture_vertices@.len() == 0,
            r.vertex_normals@.len() == 0,
            r.parameter_space_vertices@.len() == 0,
            r.points@.len() == 0,
            r.line@.len() == 0,
            r.face@.len() == 0,
            r.groups@.len() == 0,
            r.object_name is None,
            r.comments@.len() == 0,
    {
        WavefrontObj {
            geometric_vertices: Vec::new(),
            texture_vertices: Vec::new(),
            vertex_normals: Vec::new(),
            parameter_space_vertices: Vec::new(),
            points: Vec::new(),
            line: Vec::new(),
            face: Vec::new(),
            groups: Vec::new(),
            object_name: None,
            comments: Vec::new(),
        }
    }
}

/// Handles a `g` statement: records a group whose name follows the keyword,
/// covering the geometric vertices declared since the previous group. The
/// statement is rejected — and nothing changes — unless the keyword is
/// exactly `g` and a nonempty name follows the first space.
pub fn add_group_name<T>(line: &str, obj: &mut WavefrontObj<T>) -> (r: Result<
    (),
    WavefrontError,
>)
    requires
        old(obj).groups@.len() > 0 ==> old(obj).groups@.last().end_index < usize::MAX,
    ensures
        match r {
            Ok(()) => {
                &&& spec_find_char(line@, ' ', 0) == 1 && line@[0] == 'g' && line@.len() > 2
                &&& final(obj).groups@.len() == old(obj).groups@.len() + 1
                &&& {
                    let g = final(obj).groups@.last();
                    &&& g.name@ == line@.subrange(2, line@.len() as int)
                    &&& g.start_index == 1 + (if old(obj).groups@.len() > 0 {
                        old(obj).groups@.last().end_index as int
                    } else {
                        0
                    })
                    &&& g.end_index == old(obj).geometric_vertices@.len()
                }
                &&& final(obj).groups@.drop_last() == old(obj).groups@
                &&& final(obj).geometric_vertices@ == old(obj).geometric_vertices@
                &&& final(obj).texture_vertices@ == old(obj).texture_vertices@
                &&& final(obj).vertex_normals@ == old(obj).vertex_normals@
                &&& final(obj).parameter_space_vertices@ == old(obj).parameter_space_vertices@
                &&& final(obj).points@ == old(obj).points@
                &&& final(obj).line@ == old(obj).line@
                &&& final(obj).face@ == old(obj).face@
                &&& final(obj).comments@ == old(obj).comments@
                &&& final(obj).object_name == old(obj).object_name
            },
            Err(e) => {
                &&& !(spec_find_char(line@, ' ', 0) == 1 && line@[0] == 'g' && line@.len() > 2)
                &&& (e matches WavefrontError::InvalidGroupeNameData(s) && s@ == line@)
                &&& *final(obj) == *old(obj)
            },
        },
{
    let n = line.unicode_len();
    let sp = find_char_from(line, ' ', 0);
    proof {
        lemma_find_char_bounds(line@, ' ', 0);
    }
    if sp >= n {
        return Err(WavefrontError::InvalidGroupeNameData(line.to_owned()));
    }
    if !(sp == 1 && line.get_char(0) == 'g' && sp + 1 < n) {
        return Err(WavefrontError::InvalidGroupeNameData(line.to_owned()));
    }
    let name = line.substring_char(2, n).to_owned();
    let start_index = if obj.groups.len() > 0 {
        obj.groups[obj.groups.len() - 1].end_index + 1
    } else {
        1
    };
    let end_index = obj.geometric_vertices.len();
    obj.groups.push(WavefrontGroup { name, start_index, end_index });
    proof {
        assert(final(obj).groups@.drop_last() =~= old(obj).groups@);
    }
    Ok(())
}

/// Handles an `o` statement: names the object, once. The statement is
/// rejected unless the keyword is exactly `o` with a nonempty name after
/// the first space, and rejected — reporting both names — when the object
/// already has one.
pub fn add_name<T>(line: &str, obj: &mut WavefrontObj<T>) -> (r: Result<(), WavefrontError>)
    ensures
        match r {
            Ok(()) => {
                &&& spec_find_char(line@, ' ', 0) == 1 && line@[0] == 'o' && line@.len() > 2
                &&& old(obj).object_name is None
                &&& (final(obj).object_name matches Some(s) && s@ == line@.subrange(
                    2,
                    line@.len() as int,
                ))
                &&& final(obj).groups@ == old(obj).groups@
                &&& final(obj).geometric_vertices@ == old(obj).geometric_vertices@
                &&& final(obj).texture_vertices@ == old(obj).texture_vertices@
                &&& final(obj).vertex_normals@ == old(obj).vertex_normals@
                &&& final(obj).parameter_space_vertices@ == old(obj).parameter_space_vertices@
                &&& final(obj).points@ == old(obj).points@
                &&& final(obj).line@ == old(obj).line@
                &&& final(obj).face@ == old(obj).face@
                &&& final(obj).comments@ == old(obj).comments@
            },
            Err(e) => {
                &&& *final(obj) == *old(obj)
                &&& (if !(spec_find_char(line@, ' ', 0) == 1 && line@[0] == 'o' && line@.len()
                    > 2) {
                    e matches WavefrontError::InvalidNameData(s) && s@ == line@
                } else {
                    old(obj).object_name is Some && (e matches
                    WavefrontError::MultipleNamesDefined(p, q) && Some(p) == old(obj).object_name
                        && q@ == line@.subrange(2, line@.len() as int))
                })
            },
        },
{
    let n = line.unicode_len();
    let sp = find_char_from(line, ' ', 0);
    proof {
        lemma_find_char_bounds(line@, ' ', 0);
    }
    if sp >= n {
        return Err(WavefrontError::InvalidNameData(line.to_owned()));
    }
    if !(sp == 1 && line.get_char(0) == 'o' && sp + 1 < n) {
        return Err(WavefrontError::InvalidNameData(line.to_owned()));
    }
    let name = line.substring_char(2, n).to_owned();
    match &obj.object_name {
        Some(prev) => Err(
            WavefrontError::MultipleNamesDefined(prev.clone(), name),
        ),
        None => {
            obj.object_name = Some(name);
            Ok(())
        },
    }
}


/// Feeds one logical OBJ line into the object being built: the part after a
/// `#` is kept as a comment, and the rest is dispatched on its keyword —
/// vertex data parsed into the matching list (`fill_one` is the implicit
/// fourth coordinate of a parameter-space vertex, `fill_zero` pads the
/// others), elements parsed by their own parsers, grouping statements
/// handled by theirs, and everything else ignored.
#[verifier::rlimit(50)]
pub fn load_line_into_wave_front_obj<T: Copy + FromStr>(
    obj: &mut WavefrontObj<T>,
    line: &str,
    fill_zero: T,
    fill_one: T,
) -> (r: Result<(), WavefrontError>)
    requires
        old(obj).groups@.len() > 0 ==> old(obj).groups@.last().end_index < usize::MAX,
    ensures
        ({
            let cut = spec_find_char(line@, '#', 0);
            let content = line@.subrange(0, cut);
            let kind = spec_line_type(content);
            &&& final(obj).comments@.len() == old(obj).comments@.len() + (if cut + 1 < line@.len() {
                1int
            } else {
                0
            })
            &&& (r is Ok ==> final(obj).geometric_vertices@.len() == old(
                obj,
            ).geometric_vertices@.len() + (if kind == WaveFrontLineType::GeoVert {
                1int
            } else {
                0
            }))
            &&& (r is Ok ==> final(obj).texture_vertices@.len() == old(
                obj,
            ).texture_vertices@.len() + (if kind == WaveFrontLineType::TextureVert {
                1int
            } else {
                0
            }))
            &&& (r is Ok ==> final(obj).vertex_normals@.len() == old(obj).vertex_normals@.len() + (
            if kind == WaveFrontLineType::VertNorm {
                1int
            } else {
                0
            }))
            &&& (r is Ok ==> final(obj).parameter_space_vertices@.len() == old(
                obj,
            ).parameter_space_vertices@.len() + (if kind == WaveFrontLineType::ParamSpaceVert {
                1int
            } else {
                0
            }))
            &&& (r is Ok ==> final(obj).points@.len() == old(obj).points@.len() + (if kind
                == WaveFrontLineType::Point {
                1int
            } else {
                0
            }))
            &&& (r is Ok ==> final(obj).line@.len() == old(obj).line@.len() + (if kind
                == WaveFrontLineType::Line {
                1int
            } else {
                0
            }))
            &&& (r is Ok && kind == WaveFrontLineType::Line ==> final(obj).line@.drop_last() == old(
                obj,
            ).line@ && (spec_element_items(spec_words(content), 0, 'l') matches Some(items)
                && spec_line_matches(final(obj).line@.last(), items)))
            &&& (r is Ok ==> final(obj).face@.len() == old(obj).face@.len() + (if kind
                == WaveFrontLineType::Face {
                1int
            } else {
                0
            }))
            &&& (r is Ok && kind == WaveFrontLineType::Face ==> final(obj).face@.drop_last() == old(
                obj,
            ).face@ && (spec_element_items(spec_words(content), 0, 'f') matches Some(items)
                && spec_face_matches(final(obj).face@.last(), items)))
            &&& (r is Ok ==> final(obj).groups@.len() == old(obj).groups@.len() + (if kind
                == WaveFrontLineType::GroupName {
                1int
            } else {
                0
            }))
            &&& (r is Ok && kind == WaveFrontLineType::GroupName ==> final(obj).groups@.drop_last()
                == old(obj).groups@ && final(obj).groups@.last().name@ == content.subrange(
                2,
                content.len() as int,
            ))
            &&& (r is Ok && kind == WaveFrontLineType::ObjectName ==> (final(obj).object_name
                matches Some(s) && s@ == content.subrange(2, content.len() as int)))
            &&& (r is Ok && kind != WaveFrontLineType::ObjectName ==> final(obj).object_name == old(
                obj,
            ).object_name)
        }),
{
    let n = line.unicode_len();
    let cut = find_char_from(line, '#', 0);
    proof {
        lemma_find_char_bounds(line@, '#', 0);
    }
    let content = line.substring_char(0, cut);
    if cut < n && cut + 1 < n {
        obj.comments.push(line.substring_char(cut + 1, n).to_owned());
    }
    match line_type(content) {
        WaveFrontLineType::GeoVert => {
            let arr: [T; 4] = parse_array_with_default(content, fill_zero);
            obj.geometric_vertices.push(arr);
        },
        WaveFrontLineType::ParamSpaceVert => {
            let arr: [T; 3] = parse_array_with_default(content, fill_one);
            obj.parameter_space_vertices.push(arr);
        },
        WaveFrontLineType::VertNorm => {
            let arr: [T; 3] = parse_array_with_default(content, fill_zero);
            obj.vertex_normals.push(arr);
        },
        WaveFrontLineType::TextureVert => {
            let arr: [T; 3] = parse_array_with_default(content, fill_zero);
            obj.texture_vertices.push(arr);
        },
        WaveFrontLineType::Point => {
            obj.points.push(parse_vec(content));
        },
        WaveFrontLineType::Line => {
            match parse_linetype(content) {
                Ok(wl) => obj.line.push(wl),
                Err(e) => {
                    return Err(e);
                },
            }
        },
        WaveFrontLineType::Face => {
            match parse_facetype(content) {
                Ok(wf) => obj.face.push(wf),
                Err(e) => {
                    return Err(e);
                },
            }
        },
        WaveFrontLineType::GroupName => {
            match add_group_name(content, obj) {
                Ok(()) => {},
                Err(e) => {
                    return Err(e);
                },
            }
        },
        WaveFrontLineType::ObjectName => {
            match add_name(content, obj) {
                Ok(()) => {},
                Err(e) => {
                    return Err(e);
                },
            }
        },
        _ => {},
    }
    Ok(())
}

/// The text's logical lines, scanning raw lines (carriage returns
/// stripped) from position `i` with `cur` accumulated so far: a raw line
/// holding a backslash contributes what stands before it to the
/// accumulator; any other raw line completes a logical line. Accumulated
/// text never completed by a plain line is dropped.
pub open spec fn spec_logical_lines(lines: Seq<Seq<char>>, i: int, cur: Seq<char>) -> Seq<
    Seq<char>,
>
    decreases lines.len() - i when 0 <= i <= lines.len()
{
    if i >= lines.len() {
        Seq::empty()
    } else {
        let line = spec_rstrip_cr(lines[i]);
        let b = spec_find_char(line, '\\', 0);
        if b < line.len() {
            spec_logical_lines(lines, i + 1, cur + line.subrange(0, b))
        } else {
            seq![cur + line] + spec_logical_lines(lines, i + 1, Seq::empty())
        }
    }
}

/// How many logical lines from position `i` on open with the given
/// statement kind, comments cut off first.
pub open spec fn spec_kind_count(ls: Seq<Seq<char>>, i: int, kind: WaveFrontLineType) -> int
    decreases ls.len() - i when 0 <= i <= ls.len()
{
    if i >= ls.len() {
        0
    } else {
        (if spec_line_type(ls[i].subrange(0, spec_find_char(ls[i], '#', 0))) == kind {
            1int
        } else {
            0
        }) + spec_kind_count(ls, i + 1, kind)
    }
}

/// Appending a line to a scanned prefix grows the count by that line's
/// contribution.
proof fn lemma_kind_count_push(ls: Seq<Seq<char>>, x: Seq<char>, i: int, kind: WaveFrontLineType)
    requires
        0 <= i <= ls.len(),
    ensures
        spec_kind_count(ls.push(x), i, kind) == spec_kind_count(ls, i, kind) + (
        if spec_line_type(x.subrange(0, spec_find_char(x, '#', 0))) == kind {
            1int
        } else {
            0
        }),
    decreases ls.len() - i,
{
    if i < ls.len() {
        assert(ls.push(x)[i] == ls[i]);
        lemma_kind_count_push(ls, x, i + 1, kind);
    } else {
        assert(ls.push(x)[i] == x);
        assert(spec_kind_count(ls.push(x), i + 1, kind) == 0);
        assert(spec_kind_count(ls, i, kind) == 0);
    }
}

/// Builds a `WavefrontObj` from a whole OBJ text: a raw line holding a
/// backslash continues on the next line (what stands before the backslash
/// is kept), and every completed logical line is dispatched into the
/// object. On success the four vertex-data lists hold exactly one entry
/// per logical line of the matching kind.
#[verifier::rlimit(50)]
pub fn obj_from_text<T: Copy + FromStr>(text: &str, fill_zero: T, fill_one: T) -> (r: Result<
    WavefrontObj<T>,
    WavefrontError,
>)
    ensures
        ({
            let ls = spec_logical_lines(spec_split_char(text@, '\n'), 0, Seq::empty());
            r matches Ok(obj) ==> {
                &&& obj.geometric_vertices@.len() == spec_kind_count(
                    ls,
                    0,
                    WaveFrontLineType::GeoVert,
                )
                &&& obj.texture_vertices@.len() == spec_kind_count(
                    ls,
                    0,
                    WaveFrontLineType::TextureVert,
                )
                &&& obj.vertex_normals@.len() == spec_kind_count(
                    ls,
                    0,
                    WaveFrontLineType::VertNorm,
                )
                &&& obj.parameter_space_vertices@.len() == spec_kind_count(
                    ls,
                    0,
                    WaveFrontLineType::ParamSpaceVert,
                )
            }
        }),
{
    let mut obj: WavefrontObj<T> = WavefrontObj::empty();
    let lines = split_char(text, '\n');
    let ghost raw = spec_split_char(text@, '\n');
    proof {
        assert(lines@.map_values(|w: String| w@) =~= raw);
    }
    let ghost whole = spec_logical_lines(raw, 0, Seq::empty());
    let ghost mut done: Seq<Seq<char>> = Seq::empty();
    let mut current = String::new();
    let mut li: usize = 0;
    proof {
        assert(Seq::<Seq<char>>::empty() + spec_logical_lines(raw, 0, Seq::empty()) =~= whole);
    }
    while li < lines.len()
        invariant
            li <= lines@.len(),
            raw == lines@.map_values(|w: String| w@),
            raw == spec_split_char(text@, '\n'),
            whole == spec_logical_lines(raw, 0, Seq::empty()),
            whole == done + spec_logical_lines(raw, li as int, current@),
            obj.geometric_vertices@.len() == spec_kind_count(done, 0, WaveFrontLineType::GeoVert),
            obj.texture_vertices@.len() == spec_kind_count(done, 0, WaveFrontLineType::TextureVert),
            obj.vertex_normals@.len() == spec_kind_count(done, 0, WaveFrontLineType::VertNorm),
            obj.parameter_space_vertices@.len() == spec_kind_count(
                done,
                0,
                WaveFrontLineType::ParamSpaceVert,
            ),
        decreases lines@.len() - li,
    {
        let raw_line = lines[li].as_str();
        proof {
            assert(raw[li as int] == raw_line@);
        }
        let rn = raw_line.unicode_len();
        let line = if rn > 0 && raw_line.get_char(rn - 1) == '\r' {
            raw_line.substring_char(0, rn - 1)
        } else {
            raw_line
        };
        proof {
            assert(line@ == spec_rstrip_cr(raw[li as int]));
        }
        let back = find_char_from(line, '\\', 0);
        proof {
            lemma_find_char_bounds(line@, '\\', 0);
        }
        if back < line.unicode_len() {
            // keep what stands before the backslash and read on
            current.push_str(line.substring_char(0, back));
        } else {
            let ghost old_cur = current@;
            current.push_str(line);
            let ghost logical = current@;
            if obj.groups.len() > 0 && obj.groups[obj.groups.len() - 1].end_index == usize::MAX {
                return Err(WavefrontError::InvalidGroupeNameData(current));
            }
            match load_line_into_wave_front_obj(&mut obj, current.as_str(), fill_zero, fill_one) {
                Ok(()) => {},
                Err(e) => {
                    return Err(e);
                },
            }
            proof {
                let prev_done = done;
                done = done.push(logical);
                assert(logical == old_cur + line@);
                assert(spec_logical_lines(raw, li as int, old_cur) == seq![logical]
                    + spec_logical_lines(raw, li + 1 as int, Seq::empty()));
                assert(prev_done + (seq![logical] + spec_logical_lines(
                    raw,
                    li + 1 as int,
                    Seq::empty(),
                )) =~= done + spec_logical_lines(raw, li + 1 as int, Seq::empty()));
                lemma_kind_count_push(prev_done, logical, 0, WaveFrontLineType::GeoVert);
                lemma_kind_count_push(prev_done, logical, 0, WaveFrontLineType::TextureVert);
                lemma_kind_count_push(prev_done, logical, 0, WaveFrontLineType::VertNorm);
                lemma_kind_count_push(prev_done, logical, 0, WaveFrontLineType::ParamSpaceVert);
            }
            current = String::new();
        }
        li = li + 1;
    }
    proof {
        assert(spec_logical_lines(raw, li as int, current@) =~= Seq::<Seq<char>>::empty());
        assert(done + Seq::<Seq<char>>::empty() =~= done);
    }
    Ok(obj)
}

} // verus!
