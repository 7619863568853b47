//! A parser for the PGM raster format, which initializes a grid from a
//! file's bytes: cell states are the image's sample values.
//!
//! The header is whitespace-separated tokens with `#` comments running to
//! the end of their line: a magic token (`P2` for ASCII samples, `P5` for
//! binary ones), width, height, and a maximum sample value (read and
//! ignored). `P2` data is width*height further decimal tokens; `P5` data
//! is the width*height raw bytes after the single whitespace byte that
//! ends the header. Every malformed or truncated input is rejected with a
//! distinct error; parsing never panics.

use crate::automata::{Automata, Size};
use vstd::prelude::*;
use vstd::string::StringSliceAdditionalSpecFns;

verus! {

/// Why a PGM input was rejected.
#[derive(Clone, Copy, PartialEq, Eq, Structural, Debug)]
pub enum PgmError {
    /// The first token is not the format tag `P2` or `P5`.
    BadMagic,
    /// Width or height is missing, not a number, zero, or an area too
    /// large to address.
    BadDimensions,
    /// The maximum sample value is missing or not a number.
    BadMaxval,
    /// An ASCII sample is not a number.
    BadSample,
    /// The data ends before width*height samples are read.
    Truncated,
}

/// PGM whitespace: space, tab, line feed, carriage return.
pub open spec fn is_ws(b: u8) -> bool {
    b == 32 || b == 9 || b == 10 || b == 13
}

/// The position of the next token: whitespace is skipped, and from a `#`
/// everything to the end of the line is too.
pub open spec fn spec_skip(s: Seq<u8>, i: int, in_comment: bool) -> int
    decreases s.len() - i,
{
    if i < 0 || i >= s.len() {
        s.len() as int
    } else if in_comment {
        if s[i] == 10 {
            spec_skip(s, i + 1, false)
        } else {
            spec_skip(s, i + 1, true)
        }
    } else if is_ws(s[i]) {
        spec_skip(s, i + 1, false)
    } else if s[i] == 35 {
        spec_skip(s, i + 1, true)
    } else {
        i
    }
}

/// The end of the token starting at `i`: the next whitespace, `#`, or the
/// end of the input.
pub open spec fn spec_token_end(s: Seq<u8>, i: int) -> int
    decreases s.len() - i,
{
    if i < 0 || i >= s.len() {
        s.len() as int
    } else if is_ws(s[i]) || s[i] == 35 {
        i
    } else {
        spec_token_end(s, i + 1)
    }
}

/// Whether every byte in `[i, j)` is a decimal digit.
pub open spec fn all_digits(s: Seq<u8>, i: int, j: int) -> bool {
    forall|k: int| i <= k < j ==> 48 <= #[trigger] s[k] <= 57
}

/// The value of the decimal digits in `[i, j)`.
pub open spec fn spec_digits_val(s: Seq<u8>, i: int, j: int) -> int
    decreases j - i,
{
    if j <= i {
        0
    } else {
        spec_digits_val(s, i, j - 1) * 10 + (s[j - 1] - 48)
    }
}

/// Whether the token in `[i, j)` is a number a 32-bit state can hold.
pub open spec fn is_number(s: Seq<u8>, i: int, j: int) -> bool {
    i < j && all_digits(s, i, j) && spec_digits_val(s, i, j) <= u32::MAX
}

/// The ASCII samples from `pos` on: `n` further decimal tokens.
pub open spec fn spec_samples(s: Seq<u8>, pos: int, n: nat) -> Result<Seq<u32>, PgmError>
    decreases n,
{
    if n == 0 {
        Ok(Seq::empty())
    } else {
        let t0 = spec_skip(s, pos, false);
        let t1 = spec_token_end(s, t0);
        if t0 >= s.len() {
            Err(PgmError::Truncated)
        } else if !is_number(s, t0, t1) {
            Err(PgmError::BadSample)
        } else {
            match spec_samples(s, t1, (n - 1) as nat) {
                Ok(rest) => Ok(seq![spec_digits_val(s, t0, t1) as u32] + rest),
                Err(e) => Err(e),
            }
        }
    }
}

/// What parsing yields on the given bytes: the dimensions and the
/// row-major cell states, or the error for the first flaw found.
pub open spec fn spec_parse_pgm(s: Seq<u8>) -> Result<(u32, u32, Seq<u32>), PgmError> {
    let m0 = spec_skip(s, 0, false);
    let m1 = spec_token_end(s, m0);
    if !(m1 - m0 == 2 && s[m0] == 80 && (s[m0 + 1] == 50 || s[m0 + 1] == 53)) {
        Err(PgmError::BadMagic)
    } else {
        let binary = s[m0 + 1] == 53;
        let w0 = spec_skip(s, m1, false);
        let w1 = spec_token_end(s, w0);
        let h0 = spec_skip(s, w1, false);
        let h1 = spec_token_end(s, h0);
        if !(is_number(s, w0, w1) && is_number(s, h0, h1)) {
            Err(PgmError::BadDimensions)
        } else {
            let width = spec_digits_val(s, w0, w1);
            let height = spec_digits_val(s, h0, h1);
            if width == 0 || height == 0 || width * height > u32::MAX {
                Err(PgmError::BadDimensions)
            } else {
                let v0 = spec_skip(s, h1, false);
                let v1 = spec_token_end(s, v0);
                if !is_number(s, v0, v1) {
                    Err(PgmError::BadMaxval)
                } else if binary {
                    if v1 < s.len() && is_ws(s[v1]) && v1 + 1 + width * height <= s.len() {
                        Ok(
                            (
                                width as u32,
                                height as u32,
                                s.subrange(v1 + 1, v1 + 1 + width * height).map_values(
                                    |b: u8| b as u32,
                                ),
                            ),
                        )
                    } else {
                        Err(PgmError::Truncated)
                    }
                } else {
                    match spec_samples(s, v1, (width * height) as nat) {
                        Ok(cells) => Ok((width as u32, height as u32, cells)),
                        Err(e) => Err(e),
                    }
                }
            }
        }
    }
}

/// Whether one byte is PGM whitespace.
fn byte_is_ws(b: u8) -> (r: bool)
    ensures
        r == is_ws(b),
{
    b == 32 || b == 9 || b == 10 || b == 13
}

/// Skips whitespace and comments; lands on the next token or the end.
fn skip_ws(s: &[u8], start: usize) -> (r: usize)
    requires
        start <= s@.len(),
    ensures
        r == spec_skip(s@, start as int, false),
        start <= r <= s@.len(),
        r < s@.len() ==> !is_ws(s@[r as int]) && s@[r as int] != 35,
{
    let mut i = start;
    let mut in_comment = false;
    while i < s.len() && (in_comment || byte_is_ws(s[i]) || s[i] == 35)
        invariant
            start <= i <= s@.len(),
            spec_skip(s@, start as int, false) == spec_skip(s@, i as int, in_comment),
        decreases s@.len() - i,
    {
        if in_comment {
            if s[i] == 10 {
                in_comment = false;
            }
        } else if s[i] == 35 {
            in_comment = true;
        }
        i = i + 1;
    }
    i
}

/// Finds the end of the token starting at `start`.
fn token_end(s: &[u8], start: usize) -> (r: usize)
    requires
        start <= s@.len(),
    ensures
        r == spec_token_end(s@, start as int),
        start <= r <= s@.len(),
{
    let mut i = start;
    while i < s.len() && !(byte_is_ws(s[i]) || s[i] == 35)
        invariant
            start <= i <= s@.len(),
            spec_token_end(s@, start as int) == spec_token_end(s@, i as int),
        decreases s@.len() - i,
    {
        i = i + 1;
    }
    i
}

/// A run of digits has a nonnegative value.
proof fn lemma_digits_val_nonneg(s: Seq<u8>, i: int, j: int)
    requires
        all_digits(s, i, j),
    ensures
        spec_digits_val(s, i, j) >= 0,
    decreases j - i,
{
    if j > i {
        lemma_digits_val_nonneg(s, i, j - 1);
    }
}

/// Once a digit prefix exceeds the 32-bit limit, the full token's value
/// does too.
proof fn lemma_digits_val_monotonic(s: Seq<u8>, i: int, k: int, j: int)
    requires
        i <= k <= j,
        all_digits(s, i, j),
    ensures
        spec_digits_val(s, i, j) >= spec_digits_val(s, i, k),
    decreases j - k,
{
    if k < j {
        lemma_digits_val_monotonic(s, i, k, j - 1);
        lemma_digits_val_nonneg(s, i, j - 1);
    }
}

/// Reads the decimal token in `[i, j)`: `Some` of its value exactly when
/// it is a non-empty run of digits whose value fits 32 bits.
fn parse_number(s: &[u8], i: usize, j: usize) -> (r: Option<u32>)
    requires
        i <= j <= s@.len(),
    ensures
        match r {
            Some(v) => is_number(s@, i as int, j as int) && v == spec_digits_val(
                s@,
                i as int,
                j as int,
            ),
            None => !is_number(s@, i as int, j as int),
        },
{
    if i == j {
        return None;
    }
    let mut acc: u64 = 0;
    let mut k = i;
    while k < j
        invariant
            i <= k <= j <= s@.len(),
            all_digits(s@, i as int, k as int),
            acc == spec_digits_val(s@, i as int, k as int),
            acc <= u32::MAX,
        decreases j - k,
    {
        let b = s[k];
        if b < 48 || b > 57 {
            return None;
        }
        acc = acc * 10 + ((b - 48) as u64);
        k = k + 1;
        if acc > (u32::MAX as u64) {
            proof {
                if all_digits(s@, i as int, j as int) {
                    lemma_digits_val_monotonic(s@, i as int, k as int, j as int);
                }
            }
            return None;
        }
    }
    Some(acc as u32)
}

/// Parses PGM bytes into a grid whose cell states are the samples.
#[verifier::loop_isolation(false)]
pub fn parse_pgm(bytes: &[u8]) -> (r: Result<Automata, PgmError>)
    ensures
        match spec_parse_pgm(bytes@) {
            Ok((width, height, cells)) => {
                &&& r is Ok
                &&& r->Ok_0.wf()
                &&& r->Ok_0.size == (Size { width, height })
                &&& r->Ok_0.cells() == cells
            },
            Err(e) => r == Result::<Automata, PgmError>::Err(e),
        },
{
    let m0 = skip_ws(bytes, 0);
    let m1 = token_end(bytes, m0);
    if !(m1 - m0 == 2 && bytes[m0] == 80 && (bytes[m0 + 1] == 50 || bytes[m0 + 1] == 53)) {
        return Err(PgmError::BadMagic);
    }
    let binary = bytes[m0 + 1] == 53;
    let w0 = skip_ws(bytes, m1);
    let w1 = token_end(bytes, w0);
    let h0 = skip_ws(bytes, w1);
    let h1 = token_end(bytes, h0);
    let width = match parse_number(bytes, w0, w1) {
        Some(v) => v,
        None => {
            return Err(PgmError::BadDimensions);
        },
    };
    let height = match parse_number(bytes, h0, h1) {
        Some(v) => v,
        None => {
            return Err(PgmError::BadDimensions);
        },
    };
    if width == 0 || height == 0 {
        return Err(PgmError::BadDimensions);
    }
    if (u32::MAX as u64) / (width as u64) < (height as u64) {
        proof {
            assert(width * height > u32::MAX) by (nonlinear_arith)
                requires
                    0 < width,
                    0 < height,
                    (u32::MAX as int) / (width as int) < height,
            ;
        }
        return Err(PgmError::BadDimensions);
    }
    proof {
        assert(width * height <= u32::MAX) by (nonlinear_arith)
            requires
                0 < width,
                0 < height,
                (u32::MAX as int) / (width as int) >= height,
        ;
    }
    let n = (width as u64) * (height as u64);
    let v0 = skip_ws(bytes, h1);
    let v1 = token_end(bytes, v0);
    match parse_number(bytes, v0, v1) {
        Some(_) => {},
        None => {
            return Err(PgmError::BadMaxval);
        },
    }
    let size = Size { width, height };
    if binary {
        if !(v1 < bytes.len() && byte_is_ws(bytes[v1]) && (n as usize) <= bytes.len() - (v1 + 1)) {
            return Err(PgmError::Truncated);
        }
        let start = v1 + 1;
        proof {
            assert(n as usize == n);
        }
        let mut data: Vec<u32> = Vec::new();
        let mut k: usize = 0;
        while k < n as usize
            invariant
                k <= n,
                n == width * height,
                start + n <= bytes@.len(),
                data@.len() == k,
                forall|t: int| 0 <= t < k ==> data@[t] == bytes@[start + t] as u32,
            decreases n - k,
        {
            data.push(bytes[start + k] as u32);
            k = k + 1;
        }
        proof {
            assert(data@ =~= bytes@.subrange(start as int, start + n).map_values(|b: u8| b as u32));
        }
        Ok(Automata { data, size })
    } else {
        let ghost n_total = (width * height) as nat;
        let mut data: Vec<u32> = Vec::new();
        let mut k: u64 = 0;
        let mut pos = v1;
        while k < n
            invariant
                k <= n,
                n == width * height,
                n_total == n,
                pos <= bytes@.len(),
                data@.len() == k,
                match spec_samples(bytes@, pos as int, (n - k) as nat) {
                    Ok(rest) => spec_samples(bytes@, v1 as int, n_total) == Result::<
                        Seq<u32>,
                        PgmError,
                    >::Ok(data@ + rest),
                    Err(e) => spec_samples(bytes@, v1 as int, n_total) == Result::<
                        Seq<u32>,
                        PgmError,
                    >::Err(e),
                },
            decreases n - k,
        {
            let t0 = skip_ws(bytes, pos);
            let t1 = token_end(bytes, t0);
            if t0 >= bytes.len() {
                proof {
                    assert(spec_samples(bytes@, pos as int, (n - k) as nat) == Result::<
                        Seq<u32>,
                        PgmError,
                    >::Err(PgmError::Truncated));
                }
                return Err(PgmError::Truncated);
            }
            let v = match parse_number(bytes, t0, t1) {
                Some(v) => v,
                None => {
                    proof {
                        assert(spec_samples(bytes@, pos as int, (n - k) as nat) == Result::<
                            Seq<u32>,
                            PgmError,
                        >::Err(PgmError::BadSample));
                    }
                    return Err(PgmError::BadSample);
                },
            };
            proof {
                assert(spec_samples(bytes@, pos as int, (n - k) as nat) == (match spec_samples(
                    bytes@,
                    t1 as int,
                    (n - k - 1) as nat,
                ) {
                    Ok(rest) => Result::<Seq<u32>, PgmError>::Ok(seq![v] + rest),
                    Err(e) => Result::<Seq<u32>, PgmError>::Err(e),
                }));
            }
            let ghost data_prev = data@;
            data.push(v);
            proof {
                match spec_samples(bytes@, t1 as int, (n - k - 1) as nat) {
                    Ok(rest) => {
                        assert(data@ + rest =~= data_prev + (seq![v] + rest));
                    },
                    Err(e) => {},
                }
            }
            pos = t1;
            k = k + 1;
        }
        proof {
            assert(spec_samples(bytes@, pos as int, 0) == Result::<Seq<u32>, PgmError>::Ok(
                Seq::empty(),
            ));
            assert(data@ + Seq::<u32>::empty() =~= data@);
        }
        Ok(Automata { data, size })
    }
}

/// Whether a file name carries the `.pgm` extension.
pub fn has_pgm_extension(name: &str) -> (r: bool)
    ensures
        r == (name.spec_bytes().len() >= 4 && name.spec_bytes().subrange(
            name.spec_bytes().len() - 4,
            name.spec_bytes().len() as int,
        ) =~= seq![46u8, 112u8, 103u8, 109u8]),
{
    let b = name.as_bytes();
    if b.len() < 4 {
        return false;
    }
    let l = b.len();
    let r = b[l - 4] == 46 && b[l - 3] == 112 && b[l - 2] == 103 && b[l - 1] == 109;
    proof {
        if r {
            assert(name.spec_bytes().subrange(
                name.spec_bytes().len() - 4,
                name.spec_bytes().len() as int,
            ) =~= seq![46u8, 112u8, 103u8, 109u8]);
        } else {
            assert(!(name.spec_bytes().subrange(
                name.spec_bytes().len() - 4,
                name.spec_bytes().len() as int,
            ) =~= seq![46u8, 112u8, 103u8, 109u8]));
        }
    }
    r
}

} // verus!
