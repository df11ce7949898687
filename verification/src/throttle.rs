//! Reading a human-readable speed limit (`500k`, `1m`, `2g`): the split
//! into a number and a unit multiplier.
use vstd::prelude::*;
use crate::text::{chars_of, slice_chars, string_from_chars, trim, trim_chars};

verus! {

/// The multiplier a unit suffix stands for: `k`/`K` for 1024, `m`/`M` for
/// 1024², `g`/`G` for 1024³.
pub open spec fn unit_of(c: char) -> Option<u64> {
    if c == 'k' || c == 'K' {
        Some(1024u64)
    } else if c == 'm' || c == 'M' {
        Some(1048576u64)
    } else if c == 'g' || c == 'G' {
        Some(1073741824u64)
    } else {
        None
    }
}

/// The number text and multiplier of a speed text: after trimming, a unit
/// suffix is split off; a text without one is a plain number of bytes per
/// second. `None` for an empty text.
pub open spec fn speed_parts_of(s: Seq<char>) -> Option<(Seq<char>, u64)> {
    let t = trim(s);
    if t.len() == 0 {
        None
    } else {
        match unit_of(t.last()) {
            Some(m) => Some((t.drop_last(), m)),
            None => Some((t, 1)),
        }
    }
}

/// The unit suffix is read without regard to case: after trimming, a text
/// ending in `k` or `K` is that many KiB/s (1024), in `m` or `M` MiB/s
/// (1024²), in `g` or `G` GiB/s (1024³), the number being the text before
/// the suffix; any other text is a plain number of bytes per second; an
/// empty text gives nothing.
pub proof fn speed_units_law(s: Seq<char>)
    ensures
        ({
            let t = trim(s);
            &&& t.len() == 0 ==> speed_parts_of(s) is None
            &&& t.len() > 0 && (t.last() == 'k' || t.last() == 'K') ==> speed_parts_of(s) == Some(
                (t.subrange(0, t.len() - 1), 1024u64),
            )
            &&& t.len() > 0 && (t.last() == 'm' || t.last() == 'M') ==> speed_parts_of(s) == Some(
                (t.subrange(0, t.len() - 1), 1048576u64),
            )
            &&& t.len() > 0 && (t.last() == 'g' || t.last() == 'G') ==> speed_parts_of(s) == Some(
                (t.subrange(0, t.len() - 1), 1073741824u64),
            )
            &&& t.len() > 0 && !(t.last() == 'k' || t.last() == 'K' || t.last() == 'm' || t.last()
                == 'M' || t.last() == 'g' || t.last() == 'G') ==> speed_parts_of(s) == Some((t, 1u64))
        }),
{
}

/// Changing the case of the unit suffix does not change what a speed text
/// means.
pub proof fn speed_unit_case_law(s: Seq<char>, lower: char, upper: char)
    requires
        (lower == 'k' && upper == 'K') || (lower == 'm' && upper == 'M') || (lower == 'g' && upper
            == 'G'),
    ensures
        speed_parts_of(s.push(lower)) == speed_parts_of(s.push(upper)),
        speed_parts_of(s.push(lower)) matches Some((n, m)) && n == trim(s.push(lower)).drop_last()
            && m >= 1024,
{
    lemma_trim_last(s, lower);
    lemma_trim_last(s, upper);
}

proof fn lemma_trim_last(s: Seq<char>, c: char)
    requires
        !crate::text::is_ws(c),
    ensures
        trim(s.push(c)) == crate::text::trim_start(s).push(c),
    decreases s.len(),
{
    if s.len() > 0 && crate::text::is_ws(s[0]) {
        lemma_trim_last(s.drop_first(), c);
        assert(s.push(c).drop_first() =~= s.drop_first().push(c));
    } else {
        if s.len() == 0 {
            assert(crate::text::trim_start(s.push(c)) == s.push(c));
        } else {
            assert(s.push(c)[0] == s[0]);
        }
    }
    let u = crate::text::trim_start(s).push(c);
    assert(u.last() == c);
}

/// Splits a speed text into its number text and its unit multiplier.
pub fn speed_parts(s: &str) -> (r: Option<(String, u64)>)
    ensures
        match r {
            Some((n, m)) => speed_parts_of(s@) == Some((n@, m)),
            None => speed_parts_of(s@) is None,
        },
{
    let c = chars_of(s);
    let t = trim_chars(c.as_slice());
    let len = t.len();
    if len == 0 {
        return None;
    }
    let last = t[len - 1];
    let mult: u64 = if last == 'k' || last == 'K' {
        1024
    } else if last == 'm' || last == 'M' {
        1024 * 1024
    } else if last == 'g' || last == 'G' {
        1024 * 1024 * 1024
    } else {
        1
    };
    if mult == 1 {
        Some((string_from_chars(t.as_slice()), 1))
    } else {
        let n = slice_chars(t.as_slice(), 0, len - 1);
        proof {
            assert(n@ == t@.drop_last());
        }
        Some((string_from_chars(n.as_slice()), mult))
    }
}

} // verus!
