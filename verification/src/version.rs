use vstd::prelude::*;

verus! {

/// Single-byte whitespace: TAB, LF, VT, FF, CR and space.
pub open spec fn is_space(b: u8) -> bool {
    b == 32 || (9 <= b && b <= 13)
}

/// A two-byte UTF-8 whitespace character: U+0085 or U+00A0.
pub open spec fn is_space2(a: u8, b: u8) -> bool {
    a == 0xC2 && (b == 0x85 || b == 0xA0)
}

/// A three-byte UTF-8 whitespace character: U+1680, U+2000 through
/// U+200A, U+2028, U+2029, U+202F, U+205F or U+3000.
pub open spec fn is_space3(a: u8, b: u8, c: u8) -> bool {
    (a == 0xE1 && b == 0x9A && c == 0x80) || (a == 0xE2 && b == 0x80 && ((0x80 <= c && c <= 0x8A)
        || c == 0xA8 || c == 0xA9 || c == 0xAF)) || (a == 0xE2 && b == 0x81 && c == 0x9F) || (a
        == 0xE3 && b == 0x80 && c == 0x80)
}

/// The length of the UTF-8-encoded whitespace character starting at
/// `i`, or 0. Together the three byte shapes cover exactly the
/// characters with the Unicode `White_Space` property, the set that
/// trimming a string strips.
pub open spec fn space_len_at(s: Seq<u8>, i: int) -> int {
    if 0 <= i && i < s.len() && is_space(s[i]) {
        1
    } else if 0 <= i && i + 2 <= s.len() && is_space2(s[i], s[i + 1]) {
        2
    } else if 0 <= i && i + 3 <= s.len() && is_space3(s[i], s[i + 1], s[i + 2]) {
        3
    } else {
        0
    }
}

/// The length of the UTF-8-encoded whitespace character ending just
/// before `j`, or 0. A UTF-8 continuation byte never equals a leading
/// byte, so on well-formed UTF-8 the match is unambiguous.
pub open spec fn space_len_before(s: Seq<u8>, j: int) -> int {
    if 0 < j && j <= s.len() && is_space(s[j - 1]) {
        1
    } else if 2 <= j && j <= s.len() && is_space2(s[j - 2], s[j - 1]) {
        2
    } else if 3 <= j && j <= s.len() && is_space3(s[j - 3], s[j - 2], s[j - 1]) {
        3
    } else {
        0
    }
}

/// The version reported when no marker file exists yet: `"0.0.0"`.
pub open spec fn default_version() -> Seq<u8> {
    seq![48u8, 46u8, 48u8, 46u8, 48u8]
}

/// Index of the first non-whitespace character at or after `i`.
pub open spec fn trim_start_idx(s: Seq<u8>, i: int) -> int
    decreases s.len() - i when 0 <= i <= s.len()
{
    let l = space_len_at(s, i);
    if l > 0 {
        trim_start_idx(s, i + l)
    } else {
        i
    }
}

/// One past the last non-whitespace character before `j`.
pub open spec fn trim_end_idx(s: Seq<u8>, j: int) -> int
    decreases j when 0 <= j <= s.len()
{
    let l = space_len_before(s, j);
    if l > 0 {
        trim_end_idx(s, j - l)
    } else {
        j
    }
}

/// `s` without leading and trailing whitespace: the UTF-8 encodings of
/// the characters with the Unicode `White_Space` property. On
/// well-formed UTF-8 — and the marker file is read as a string, so its
/// contents are — this is exactly what trimming the string leaves.
pub open spec fn trimmed(s: Seq<u8>) -> Seq<u8> {
    let lo = trim_start_idx(s, 0);
    let hi = trim_end_idx(s, s.len() as int);
    if lo <= hi {
        s.subrange(lo, hi)
    } else {
        Seq::empty()
    }
}

/// The version a marker file records: its trimmed contents, or `"0.0.0"`
/// when the file is absent.
pub open spec fn stored_version(contents: Option<Seq<u8>>) -> Seq<u8> {
    match contents {
        Option::None => default_version(),
        Option::Some(s) => trimmed(s),
    }
}

/// Whether `b` is single-byte whitespace.
pub fn is_space_byte(b: u8) -> (r: bool)
    ensures
        r == is_space(b),
{
    b == 32 || (9 <= b && b <= 13)
}

fn is_space3_bytes(a: u8, b: u8, c: u8) -> (r: bool)
    ensures
        r == is_space3(a, b, c),
{
    (a == 0xE1 && b == 0x9A && c == 0x80) || (a == 0xE2 && b == 0x80 && ((0x80 <= c && c <= 0x8A)
        || c == 0xA8 || c == 0xA9 || c == 0xAF)) || (a == 0xE2 && b == 0x81 && c == 0x9F) || (a
        == 0xE3 && b == 0x80 && c == 0x80)
}

/// The length of the whitespace character starting at `i`, or 0.
fn space_len_at_exec(v: &Vec<u8>, i: usize) -> (l: usize)
    requires
        i <= v@.len(),
    ensures
        l == space_len_at(v@, i as int),
        l > 0 ==> i + l <= v@.len(),
{
    let n: usize = v.len();
    if i < n && is_space_byte(v[i]) {
        1
    } else if n - i >= 2 && v[i] == 0xC2 && (v[i + 1] == 0x85 || v[i + 1] == 0xA0) {
        2
    } else if n - i >= 3 && is_space3_bytes(v[i], v[i + 1], v[i + 2]) {
        3
    } else {
        0
    }
}

/// The length of the whitespace character ending just before `j`, or 0.
fn space_len_before_exec(v: &Vec<u8>, j: usize) -> (l: usize)
    requires
        j <= v@.len(),
    ensures
        l == space_len_before(v@, j as int),
        l > 0 ==> l <= j,
{
    if j >= 1 && is_space_byte(v[j - 1]) {
        1
    } else if j >= 2 && v[j - 2] == 0xC2 && (v[j - 1] == 0x85 || v[j - 1] == 0xA0) {
        2
    } else if j >= 3 && is_space3_bytes(v[j - 3], v[j - 2], v[j - 1]) {
        3
    } else {
        0
    }
}

/// Remove leading and trailing whitespace from `v`.
pub fn trim_bytes(v: &Vec<u8>) -> (r: Vec<u8>)
    ensures
        r@ == trimmed(v@),
{
    let n: usize = v.len();
    let mut lo: usize = 0;
    while space_len_at_exec(v, lo) != 0
        invariant
            0 <= lo <= n == v@.len(),
            trim_start_idx(v@, 0) == trim_start_idx(v@, lo as int),
        decreases n - lo,
    {
        let l = space_len_at_exec(v, lo);
        proof {
            assert(trim_start_idx(v@, lo as int) == trim_start_idx(v@, lo + l));
        }
        lo = lo + l;
    }
    proof {
        assert(trim_start_idx(v@, lo as int) == lo as int);
    }
    let mut hi: usize = n;
    while space_len_before_exec(v, hi) != 0
        invariant
            0 <= hi <= n == v@.len(),
            trim_end_idx(v@, n as int) == trim_end_idx(v@, hi as int),
        decreases hi,
    {
        let l = space_len_before_exec(v, hi);
        proof {
            assert(trim_end_idx(v@, hi as int) == trim_end_idx(v@, hi - l));
        }
        hi = hi - l;
    }
    proof {
        assert(trim_end_idx(v@, hi as int) == hi as int);
    }
    let mut r: Vec<u8> = Vec::new();
    if lo <= hi {
        let mut i: usize = lo;
        proof {
            assert(r@ =~= v@.subrange(lo as int, lo as int));
        }
        while i < hi
            invariant
                lo <= i <= hi <= v@.len(),
                r@ == v@.subrange(lo as int, i as int),
            decreases hi - i,
        {
            r.push(v[i]);
            assert(r@ =~= v@.subrange(lo as int, i + 1));
            i = i + 1;
        }
        proof {
            assert(r@ =~= trimmed(v@));
        }
    } else {
        proof {
            assert(r@ =~= trimmed(v@));
        }
    }
    r
}

/// The installed version, read from the marker file's contents, or
/// `"0.0.0"` when no marker file exists.
pub fn read_version(contents: &Option<Vec<u8>>) -> (r: Vec<u8>)
    ensures
        r@ == stored_version(match *contents {
            Option::None => Option::None,
            Option::Some(ref c) => Option::Some(c@),
        }),
{
    match contents {
        Option::None => {
            let r: Vec<u8> = vec![48u8, 46u8, 48u8, 46u8, 48u8];
            assert(r@ =~= default_version());
            r
        },
        Option::Some(c) => trim_bytes(c),
    }
}

} // verus!
