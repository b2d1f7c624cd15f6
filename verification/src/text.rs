//! Verified text helpers: substring search, equality, trimming, and
//! trusted case folding. Article references are matched by these.

use vstd::prelude::*;
use vstd::string::StrSliceExecFns;

verus! {

/// What `str::to_lowercase` returns on `s`: its Unicode lowercase form,
/// a function of the characters alone.
pub uninterp spec fn lower_of(s: Seq<char>) -> Seq<char>;

/// What `str::to_uppercase` returns on `s`: its Unicode uppercase form,
/// a function of the characters alone.
pub uninterp spec fn upper_of(s: Seq<char>) -> Seq<char>;

/// Relies on `str::to_lowercase` of std: a deterministic lowercase mapping
/// of the characters, here only given the name [`lower_of`].
#[verifier::external_body]
pub(crate) fn lowercase(s: &str) -> (r: String)
    ensures
        r@ == lower_of(s@),
{
    s.to_lowercase()
}

/// Relies on `str::to_uppercase` of std: a deterministic uppercase mapping
/// of the characters, here only given the name [`upper_of`].
#[verifier::external_body]
pub(crate) fn uppercase(s: &str) -> (r: String)
    ensures
        r@ == upper_of(s@),
{
    s.to_uppercase()
}

/// True when `needle` occurs contiguously somewhere in `hay`.
pub open spec fn contains_seq(hay: Seq<char>, needle: Seq<char>) -> bool {
    exists|i: int|
        0 <= i && i + needle.len() <= hay.len() && #[trigger] hay.subrange(i, i + needle.len())
            == needle
}

/// True when `needle` occurs in `hay` starting at character position `i`.
fn matches_at(hay: &str, needle: &str, i: usize) -> (r: bool)
    requires
        hay@.len() <= usize::MAX,
        i + needle@.len() <= hay@.len(),
    ensures
        r == (hay@.subrange(i as int, i + needle@.len()) == needle@),
{
    let n = needle.unicode_len();
    let mut j: usize = 0;
    while j < n
        invariant
            j <= n,
            n == needle@.len(),
            hay@.len() <= usize::MAX,
            i + n <= hay@.len(),
            forall|k: int| 0 <= k < j ==> hay@[i + k] == needle@[k],
        decreases n - j,
    {
        if hay.get_char(i + j) != needle.get_char(j) {
            proof {
                assert(hay@.subrange(i as int, i + needle@.len())[j as int] == hay@[i + j]);
            }
            return false;
        }
        j += 1;
    }
    proof {
        assert(hay@.subrange(i as int, i + needle@.len()) =~= needle@);
    }
    true
}

/// Substring search over character sequences: returns whether `needle`
/// occurs anywhere in `hay`.
pub fn contains_substring(hay: &str, needle: &str) -> (r: bool)
    ensures
        r == contains_seq(hay@, needle@),
{
    let h = hay.unicode_len();
    let n = needle.unicode_len();
    if n > h {
        return false;
    }
    if n == 0 {
        proof {
            assert(hay@.subrange(0, 0 + needle@.len() as int) =~= needle@);
        }
        return true;
    }
    let mut i: usize = 0;
    while i <= h - n
        invariant
            0 < n <= h,
            h == hay@.len(),
            n == needle@.len(),
            i <= h - n + 1,
            forall|k: int| 0 <= k < i ==> #[trigger] hay@.subrange(k, k + n) != needle@,
        decreases h + 1 - n - i,
    {
        if matches_at(hay, needle, i) {
            assert(hay@.subrange(i as int, i + n) == needle@);
            return true;
        }
        i += 1;
    }
    assert(forall|k: int|
        0 <= k && k + needle@.len() <= hay@.len() ==> #[trigger] hay@.subrange(k, k + n) != needle@);
    false
}

/// Character-wise string equality.
pub fn str_eq(a: &str, b: &str) -> (r: bool)
    ensures
        r == (a@ == b@),
{
    let la = a.unicode_len();
    let lb = b.unicode_len();
    if la != lb {
        return false;
    }
    let mut i: usize = 0;
    while i < la
        invariant
            i <= la,
            la == a@.len(),
            la == b@.len(),
            forall|k: int| 0 <= k < i ==> a@[k] == b@[k],
        decreases la - i,
    {
        if a.get_char(i) != b.get_char(i) {
            return false;
        }
        i += 1;
    }
    proof {
        assert(a@ =~= b@);
    }
    true
}

/// The characters that `str::trim` removes: the Unicode white-space set.
pub open spec fn is_space(c: char) -> bool {
    ||| c as u32 == 0x9
    ||| c as u32 == 0xA
    ||| c as u32 == 0xB
    ||| c as u32 == 0xC
    ||| c as u32 == 0xD
    ||| c as u32 == 0x20
    ||| c as u32 == 0x85
    ||| c as u32 == 0xA0
    ||| c as u32 == 0x1680
    ||| (0x2000 <= c as u32 && c as u32 <= 0x200A)
    ||| c as u32 == 0x2028
    ||| c as u32 == 0x2029
    ||| c as u32 == 0x202F
    ||| c as u32 == 0x205F
    ||| c as u32 == 0x3000
}

/// Executable form of [`is_space`].
fn is_space_exec(c: char) -> (r: bool)
    ensures
        r == is_space(c),
{
    let u = c as u32;
    u == 0x9 || u == 0xA || u == 0xB || u == 0xC || u == 0xD || u == 0x20 || u == 0x85 || u == 0xA0
        || u == 0x1680 || (0x2000 <= u && u <= 0x200A) || u == 0x2028 || u == 0x2029 || u == 0x202F
        || u == 0x205F || u == 0x3000
}

/// `s` with its leading white space removed.
pub open spec fn trim_start_spec(s: Seq<char>) -> Seq<char>
    decreases s.len(),
{
    if s.len() > 0 && is_space(s[0]) {
        trim_start_spec(s.drop_first())
    } else {
        s
    }
}

/// `s` with its trailing white space removed.
pub open spec fn trim_end_spec(s: Seq<char>) -> Seq<char>
    decreases s.len(),
{
    if s.len() > 0 && is_space(s.last()) {
        trim_end_spec(s.drop_last())
    } else {
        s
    }
}

/// `s` with white space removed from both ends, as `str::trim` leaves it.
pub open spec fn trim_spec(s: Seq<char>) -> Seq<char> {
    trim_end_spec(trim_start_spec(s))
}

/// Remove white space from both ends of `s`.
pub fn trim_str<'a>(s: &'a str) -> (r: &'a str)
    ensures
        r@ == trim_spec(s@),
{
    let n = s.unicode_len();
    proof {
        assert(s@.subrange(0, n as int) =~= s@);
    }
    let mut start: usize = 0;
    while start < n && is_space_exec(s.get_char(start))
        invariant
            start <= n,
            n == s@.len(),
            trim_start_spec(s@) == trim_start_spec(s@.subrange(start as int, n as int)),
        decreases n - start,
    {
        proof {
            assert(s@.subrange(start as int, n as int).drop_first() =~= s@.subrange(
                start + 1,
                n as int,
            ));
        }
        start += 1;
    }
    proof {
        if start < n {
            assert(trim_start_spec(s@.subrange(start as int, n as int)) == s@.subrange(
                start as int,
                n as int,
            ));
        } else {
            assert(s@.subrange(start as int, n as int) =~= Seq::<char>::empty());
        }
    }
    let mut end: usize = n;
    while end > start && is_space_exec(s.get_char(end - 1))
        invariant
            start <= end <= n,
            n == s@.len(),
            trim_start_spec(s@) == s@.subrange(start as int, n as int),
            trim_end_spec(s@.subrange(start as int, n as int)) == trim_end_spec(
                s@.subrange(start as int, end as int),
            ),
        decreases end,
    {
        proof {
            assert(s@.subrange(start as int, end as int).drop_last() =~= s@.subrange(
                start as int,
                end - 1,
            ));
        }
        end -= 1;
    }
    proof {
        if end > start {
            assert(trim_end_spec(s@.subrange(start as int, end as int)) == s@.subrange(
                start as int,
                end as int,
            ));
        } else {
            assert(s@.subrange(start as int, end as int) =~= Seq::<char>::empty());
        }
    }
    s.substring_char(start, end)
}

} // verus!
