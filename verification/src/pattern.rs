use vstd::prelude::*;

use crate::error::{BusError, BusErrorKind};

verus! {

/// A decimal digit.
pub open spec fn is_digit(c: char) -> bool {
    '0' <= c && c <= '9'
}

/// A character allowed in a bus line code: a digit or an upper-case letter.
pub open spec fn is_code_char(c: char) -> bool {
    is_digit(c) || ('A' <= c && c <= 'Z')
}

pub open spec fn all_digits(s: Seq<char>) -> bool {
    forall|i: int| 0 <= i < s.len() ==> is_digit(#[trigger] s[i])
}

pub open spec fn all_code_chars(s: Seq<char>) -> bool {
    forall|i: int| 0 <= i < s.len() ==> is_code_char(#[trigger] s[i])
}

/// The first position at or after `from` that holds a colon, or `s.len()`
/// if there is none.
pub open spec fn seg_end(s: Seq<char>, from: int) -> int
    decreases s.len() - from when 0 <= from <= s.len()
{
    if from >= s.len() {
        from
    } else if s[from] == ':' {
        from
    } else {
        seg_end(s, from + 1)
    }
}

pub proof fn lemma_seg_end(s: Seq<char>, from: int)
    requires
        0 <= from <= s.len(),
    ensures
        from <= seg_end(s, from) <= s.len(),
        seg_end(s, from) < s.len() ==> s[seg_end(s, from)] == ':',
        forall|k: int| from <= k < seg_end(s, from) ==> s[k] != ':',
    decreases s.len() - from,
{
    if from < s.len() && s[from] != ':' {
        lemma_seg_end(s, from + 1);
    }
}

/// Leading zeros dropped, except that the last character of an all-zero
/// segment stays: what remains of the code segment is the bus line code.
pub open spec fn strip_zeros(s: Seq<char>) -> Seq<char>
    decreases s.len(),
{
    if s.len() <= 1 {
        s
    } else if s[0] == '0' {
        strip_zeros(s.subrange(1, s.len() as int))
    } else {
        s
    }
}

/// The shape a pattern identifier must have: the agency prefix `HSL:`,
/// one routing digit, a non-empty run of code characters up to a colon,
/// then two non-empty all-digit segments separated by a colon, with
/// nothing after them.
pub open spec fn pattern_ok(s: Seq<char>) -> bool {
    let j = seg_end(s, 5);
    let k = seg_end(s, j + 1);
    &&& s.len() > 5
    &&& s[0] == 'H'
    &&& s[1] == 'S'
    &&& s[2] == 'L'
    &&& s[3] == ':'
    &&& is_digit(s[4])
    &&& 5 < j < s.len()
    &&& all_code_chars(s.subrange(5, j))
    &&& j + 1 < k < s.len()
    &&& all_digits(s.subrange(j + 1, k))
    &&& k + 1 < s.len()
    &&& all_digits(s.subrange(k + 1, s.len() as int))
}

/// The bus line code carried by a pattern identifier: the code segment
/// after the agency prefix and the routing digit, with leading zeros
/// stripped.
pub open spec fn bus_code_of(s: Seq<char>) -> Seq<char> {
    strip_zeros(s.subrange(5, seg_end(s, 5)))
}

proof fn lemma_strip_zeros_at(s: Seq<char>, k: int)
    requires
        0 <= k < s.len(),
        forall|i: int| 0 <= i < k ==> s[i] == '0',
        k == s.len() - 1 || s[k] != '0',
    ensures
        strip_zeros(s) == s.subrange(k, s.len() as int),
    decreases k,
{
    if k == 0 {
        assert(s.subrange(0, s.len() as int) =~= s);
    } else {
        let rest = s.subrange(1, s.len() as int);
        lemma_strip_zeros_at(rest, k - 1);
        assert(rest.subrange(k - 1, rest.len() as int) =~= s.subrange(k, s.len() as int));
    }
}

fn char_is_digit(c: char) -> (r: bool)
    ensures
        r == is_digit(c),
{
    '0' <= c && c <= '9'
}

fn char_is_code_char(c: char) -> (r: bool)
    ensures
        r == is_code_char(c),
{
    char_is_digit(c) || ('A' <= c && c <= 'Z')
}

/// Whether every character of `s` is a decimal digit; the shape a stop
/// identifier handed to the library must have.
pub fn is_digit_string(s: &str) -> (r: bool)
    ensures
        r == all_digits(s@),
{
    let n = s.unicode_len();
    let mut i: usize = 0;
    while i < n
        invariant
            0 <= i <= n,
            n == s@.len(),
            forall|k: int| 0 <= k < i ==> is_digit(#[trigger] s@[k]),
        decreases n - i,
    {
        if !char_is_digit(s.get_char(i)) {
            return false;
        }
        i += 1;
    }
    true
}

/// The first position at or after `from` that holds a colon, or the
/// length of `s` if there is none.
fn find_colon(s: &str, from: usize) -> (r: usize)
    requires
        from <= s@.len(),
    ensures
        r == seg_end(s@, from as int),
        from <= r <= s@.len(),
{
    let n = s.unicode_len();
    let mut i = from;
    while i < n
        invariant
            from <= i <= n,
            n == s@.len(),
            seg_end(s@, from as int) == seg_end(s@, i as int),
        decreases n - i,
    {
        if s.get_char(i) == ':' {
            return i;
        }
        i += 1;
    }
    i
}

/// The message of a pattern-format failure: it names the offending
/// identifier.
pub open spec fn pattern_error_message(id: Seq<char>) -> Seq<char> {
    "pattern id did not match the expected shape: "@ + id
}

fn pattern_error(id: &str) -> (r: BusError)
    ensures
        r.kind == BusErrorKind::PatternFormat,
        r.message@ == pattern_error_message(id@),
{
    let mut m = String::from_str("pattern id did not match the expected shape: ");
    m.append(id);
    BusError::new(BusErrorKind::PatternFormat, m)
}

/// Check that every character of `s` in `[lo, hi)` satisfies the given
/// class, digits alone or digits and upper-case letters.
fn span_in_class(s: &str, lo: usize, hi: usize, digits_only: bool) -> (r: bool)
    requires
        lo <= hi <= s@.len(),
    ensures
        digits_only ==> r == all_digits(s@.subrange(lo as int, hi as int)),
        !digits_only ==> r == all_code_chars(s@.subrange(lo as int, hi as int)),
{
    let ghost sub = s@.subrange(lo as int, hi as int);
    let mut i = lo;
    while i < hi
        invariant
            lo <= i <= hi <= s@.len(),
            sub == s@.subrange(lo as int, hi as int),
            forall|k: int|
                lo <= k < i ==> if digits_only {
                    is_digit(#[trigger] s@[k])
                } else {
                    is_code_char(#[trigger] s@[k])
                },
        decreases hi - i,
    {
        let c = s.get_char(i);
        let ok = if digits_only {
            char_is_digit(c)
        } else {
            char_is_code_char(c)
        };
        if !ok {
            assert(!(if digits_only {
                all_digits(sub)
            } else {
                all_code_chars(sub)
            })) by {
                assert(sub[i - lo] == s@[i as int]);
            }
            return false;
        }
        i += 1;
    }
    assert forall|k: int| 0 <= k < sub.len() implies (if digits_only {
        is_digit(#[trigger] sub[k])
    } else {
        is_code_char(#[trigger] sub[k])
    }) by {
        assert(sub[k] == s@[lo + k]);
    }
    true
}

/// Extract the normalized bus line code from a pattern identifier, or
/// report a pattern-format failure naming the offending identifier.
pub fn extract_bus_code(id: &str) -> (r: Result<String, BusError>)
    ensures
        r is Ok <==> pattern_ok(id@),
        r matches Ok(code) ==> code@ == bus_code_of(id@),
        r matches Err(e) ==> e.kind == BusErrorKind::PatternFormat && e.message@
            == pattern_error_message(id@),
{
    let n = id.unicode_len();
    if n <= 5 {
        return Err(pattern_error(id));
    }
    if id.get_char(0) != 'H' || id.get_char(1) != 'S' || id.get_char(2) != 'L'
        || id.get_char(3) != ':' {
        return Err(pattern_error(id));
    }
    if !char_is_digit(id.get_char(4)) {
        return Err(pattern_error(id));
    }
    let j = find_colon(id, 5);
    proof {
        lemma_seg_end(id@, 5);
    }
    if j == 5 || j == n {
        return Err(pattern_error(id));
    }
    if !span_in_class(id, 5, j, false) {
        return Err(pattern_error(id));
    }
    let k = find_colon(id, j + 1);
    proof {
        lemma_seg_end(id@, j as int + 1);
    }
    if k == j + 1 || k == n {
        return Err(pattern_error(id));
    }
    if !span_in_class(id, j + 1, k, true) {
        return Err(pattern_error(id));
    }
    if k + 1 == n {
        return Err(pattern_error(id));
    }
    if !span_in_class(id, k + 1, n, true) {
        return Err(pattern_error(id));
    }
    // Strip the leading zeros of the code segment, keeping its last
    // character even when the whole segment is zeros.
    let mut start: usize = 5;
    while start < j - 1 && id.get_char(start) == '0'
        invariant
            5 <= start <= j - 1,
            j <= id@.len(),
            5 < j,
            forall|i: int| 5 <= i < start ==> id@[i] == '0',
        decreases j - start,
    {
        start += 1;
    }
    let code = id.substring_char(start, j).to_owned();
    proof {
        let seg = id@.subrange(5, j as int);
        lemma_strip_zeros_at(seg, start - 5);
        assert(seg.subrange(start - 5, seg.len() as int) =~= id@.subrange(
            start as int,
            j as int,
        ));
        assert forall|i: int| 0 <= i < start - 5 implies seg[i] == '0' by {
            assert(seg[i] == id@[5 + i]);
        }
    }
    Ok(code)
}

} // verus!
