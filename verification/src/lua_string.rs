//! The `string` library that scripts see: `len`, `byte` and `char`.

use crate::text::{signed_decimal_string, i64_to_string};
use vstd::prelude::*;

verus! {

/// The argument of `string.len`.
#[derive(Debug)]
pub enum LenArg {
    /// An integer, measured by the length of its decimal text.
    Integer(i64),
    /// A float, given as the text it prints as, measured by that text's
    /// length.
    NumberText(String),
    /// A string, measured in bytes.
    Bytes(Vec<u8>),
    /// Anything else, which `len` refuses.
    Other,
}

/// What `string.len` gives: the length in bytes, or `None` for an
/// argument it refuses.
pub open spec fn len_spec(arg: LenArg) -> Option<int> {
    match arg {
        LenArg::Integer(i) => Some(signed_decimal_string(i as int).len() as int),
        LenArg::NumberText(t) => Some(t@.len() as int),
        LenArg::Bytes(b) => Some(b@.len() as int),
        LenArg::Other => None,
    }
}

/// The error that `string.len` raises on an argument it cannot measure.
pub open spec fn len_error_text() -> Seq<char> {
    "Bad argument to len"@
}

/// `string.len`: the number of bytes of the argument's text, or the error
/// `Bad argument to len` for an argument that has none.
pub fn len(arg: &LenArg) -> (r: Result<usize, &'static str>)
    ensures
        match len_spec(*arg) {
            Some(n) => r matches Ok(k) && k as int == n,
            None => r matches Err(m) && m@ == len_error_text(),
        },
{
    match arg {
        LenArg::Integer(i) => {
            let s = i64_to_string(*i);
            let v = crate::text::chars_of(s.as_str());
            Ok(v.len())
        },
        LenArg::NumberText(t) => {
            let v = crate::text::chars_of(t.as_str());
            Ok(v.len())
        },
        LenArg::Bytes(b) => Ok(b.len()),
        LenArg::Other => Err("Bad argument to len"),
    }
}

/// The bytes `s[k - 1]` for `k` from `i` to `j` inclusive, skipping the
/// positions outside `1..=s.len()`.
pub open spec fn bytes_between(s: Seq<u8>, i: int, j: int) -> Seq<u8>
    decreases j - i + 1,
{
    if j < i {
        Seq::empty()
    } else {
        let rest = bytes_between(s, i, j - 1);
        if 1 <= j <= s.len() {
            rest.push(s[j - 1])
        } else {
            rest
        }
    }
}

/// `string.byte(s, i, j)`: the byte values at positions `i` through `j`
/// (one-based, `j` defaulting to `i`), leaving out positions outside the
/// string.
pub fn byte(s: &[u8], i: u32, j: Option<u32>) -> (r: Vec<u8>)
    ensures
        r@ == bytes_between(
            s@,
            i as int,
            match j {
                Some(j) => j as int,
                None => i as int,
            },
        ),
{
    let last = match j {
        Some(j) => j,
        None => i,
    };
    let ghost jj: int = match j {
        Some(j) => j as int,
        None => i as int,
    };
    assert(last == jj);
    let mut out: Vec<u8> = Vec::new();
    if last < i {
        assert(out@ =~= bytes_between(s@, i as int, jj));
        return out;
    }
    let mut k = i;
    loop
        invariant
            i <= k <= last,
            last == jj,
            jj == match j {
                Some(j) => j as int,
                None => i as int,
            },
            out@ == bytes_between(s@, i as int, k - 1),
        decreases last - k,
    {
        if k != 0 && ((k - 1) as usize) < s.len() {
            out.push(s[(k - 1) as usize]);
        }
        proof {
            assert(out@ == bytes_between(s@, i as int, k as int));
        }
        if k == last {
            assert(out@ == bytes_between(s@, i as int, jj));
            return out;
        }
        k = k + 1;
    }
}

/// `string.char(...)`: the string whose bytes are the given codes.
pub fn char(codes: &[u8]) -> (r: Vec<u8>)
    ensures
        r@ == codes@,
{
    let mut out: Vec<u8> = Vec::new();
    let mut i: usize = 0;
    while i < codes.len()
        invariant
            i <= codes@.len(),
            out@ == codes@.take(i as int),
        decreases codes@.len() - i,
    {
        out.push(codes[i]);
        proof {
            assert(out@ =~= codes@.take(i + 1));
        }
        i = i + 1;
    }
    assert(codes@.take(codes@.len() as int) =~= codes@);
    out
}

} // verus!
