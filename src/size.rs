use vstd::prelude::*;
use vstd::string::StringSliceAdditionalSpecFns;

verus! {

broadcast use vstd::seq::group_seq_axioms;

/// An output size in whole pixels.
#[derive(Clone, Copy, Debug, PartialEq, Eq, Structural)]
pub struct Size {
    pub w: u32,
    pub h: u32,
}

/// Why a `WxH` size string was refused.
#[derive(Clone, Copy, Debug, PartialEq, Eq, Structural)]
pub enum SizeError {
    /// No `x` separates the width from the height.
    MissingDelimiter,
    /// The width or the height is not a decimal number that fits in `u32`.
    InvalidNumber,
}

impl SizeError {
    /// A message for the user.
    pub fn message(&self) -> (r: &'static str)
        ensures
            *self == SizeError::MissingDelimiter ==> r == "please delimit width and height with an 'x': 128x142",
            *self == SizeError::InvalidNumber ==> r == "width and height must be whole numbers of pixels",
    {
        match self {
            SizeError::MissingDelimiter => "please delimit width and height with an 'x': 128x142",
            SizeError::InvalidNumber => "width and height must be whole numbers of pixels",
        }
    }
}

pub open spec fn is_digit(b: u8) -> bool {
    48 <= b <= 57
}

pub open spec fn all_digits(s: Seq<u8>) -> bool {
    forall|i: int| 0 <= i < s.len() ==> is_digit(#[trigger] s[i])
}

/// The value of a string of decimal digits.
pub open spec fn digits_value(s: Seq<u8>) -> int
    decreases s.len(),
{
    if s.len() == 0 {
        0
    } else {
        digits_value(s.drop_last()) * 10 + (s.last() - 48)
    }
}

/// An unsigned decimal number as `u32` reads it: an optional `+`, then one
/// or more digits, with a value that fits.
pub open spec fn parse_u32(s: Seq<u8>) -> Option<u32> {
    let d = if s.len() > 0 && s[0] == 43 {
        s.drop_first()
    } else {
        s
    };
    if d.len() > 0 && all_digits(d) && digits_value(d) <= u32::MAX {
        Some(digits_value(d) as u32)
    } else {
        None
    }
}

/// `i` is the first position of an `x` in `s`.
pub open spec fn first_x(s: Seq<u8>, i: int) -> bool {
    0 <= i < s.len() && s[i] == 120 && forall|j: int| 0 <= j < i ==> s[j] != 120
}

/// A size written `WxH`: the text before the first `x` is the width, the
/// text after it the height.
pub open spec fn parse_size_spec(s: Seq<u8>) -> Result<Size, SizeError> {
    if !exists|i: int| first_x(s, i) {
        Err(SizeError::MissingDelimiter)
    } else {
        let i = choose|i: int| first_x(s, i);
        match (parse_u32(s.take(i)), parse_u32(s.skip(i + 1))) {
            (Some(w), Some(h)) => Ok(Size { w, h }),
            _ => Err(SizeError::InvalidNumber),
        }
    }
}

/// Reads `b[lo..hi]` as an unsigned decimal number.
fn parse_digits(b: &[u8], lo: usize, hi: usize) -> (r: Option<u32>)
    requires
        lo <= hi <= b@.len(),
    ensures
        r == parse_u32(b@.subrange(lo as int, hi as int)),
{
    let ghost s = b@.subrange(lo as int, hi as int);
    let mut start = lo;
    if lo < hi && b[lo] == 43 {
        start = lo + 1;
    }
    let ghost d = b@.subrange(start as int, hi as int);
    assert(d =~= (if s.len() > 0 && s[0] == 43 { s.drop_first() } else { s }));
    if start == hi {
        return None;
    }
    let mut acc: u64 = 0;
    let mut k: usize = start;
    while k < hi
        invariant
            lo <= start <= k <= hi <= b@.len(),
            d == b@.subrange(start as int, hi as int),
            s == b@.subrange(lo as int, hi as int),
            d == (if s.len() > 0 && s[0] == 43 {
                s.drop_first()
            } else {
                s
            }),
            forall|i: int| start <= i < k ==> is_digit(#[trigger] b@[i]),
            acc as int == if digits_value(b@.subrange(start as int, k as int)) > u32::MAX {
                u32::MAX + 1
            } else {
                digits_value(b@.subrange(start as int, k as int))
            },
        decreases hi - k,
    {
        let c = b[k];
        if c < 48 || c > 57 {
            assert(d[k - start] == b@[k as int]);
            assert(!is_digit(d[k - start]));
            assert(!all_digits(d));
            return None;
        }
        let ghost prev = b@.subrange(start as int, k as int);
        assert(b@.subrange(start as int, k + 1).drop_last() =~= prev);
        let v = acc * 10 + (c - 48) as u64;
        proof {
            let pv = digits_value(prev);
            assert(pv >= 0) by {
                lemma_digits_nonneg(prev);
            }
            if pv > u32::MAX {
                assert(pv * 10 + (c - 48) > u32::MAX) by (nonlinear_arith)
                    requires
                        pv > u32::MAX,
                        48 <= c,
                ;
            }
        }
        acc = if v > 0x1_0000_0000 {
            0x1_0000_0000
        } else {
            v
        };
        k += 1;
    }
    assert(b@.subrange(start as int, k as int) =~= d);
    if acc > u32::MAX as u64 {
        None
    } else {
        Some(acc as u32)
    }
}

proof fn lemma_digits_nonneg(s: Seq<u8>)
    requires
        forall|i: int| 0 <= i < s.len() ==> is_digit(#[trigger] s[i]),
    ensures
        digits_value(s) >= 0,
    decreases s.len(),
{
    if s.len() > 0 {
        lemma_digits_nonneg(s.drop_last());
    }
}

impl Size {
    /// Reads a size written `WxH`, such as `128x142`.
    pub fn parse(s: &str) -> (r: Result<Size, SizeError>)
        ensures
            r == parse_size_spec(s.spec_bytes()),
    {
        let b = s.as_bytes();
        let n = b.len();
        let mut i: usize = 0;
        while i < n && b[i] != 120
            invariant
                0 <= i <= n,
                n == b@.len(),
                forall|j: int| 0 <= j < i ==> b@[j] != 120,
            decreases n - i,
        {
            i += 1;
        }
        if i == n {
            assert(!exists|k: int| first_x(b@, k));
            return Err(SizeError::MissingDelimiter);
        }
        proof {
            assert(first_x(b@, i as int));
            let k = choose|k: int| first_x(b@, k);
            assert(k == i);
            assert(b@.take(i as int) =~= b@.subrange(0, i as int));
            assert(b@.skip(i + 1) =~= b@.subrange(i + 1, n as int));
        }
        let w = parse_digits(b, 0, i);
        let h = parse_digits(b, i + 1, n);
        match (w, h) {
            (Some(w), Some(h)) => Ok(Size { w, h }),
            _ => Err(SizeError::InvalidNumber),
        }
    }
}

} // verus!
