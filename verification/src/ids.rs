//! Deterministic cluster identifiers.
//!
//! A cluster's identifier is `cluster_{ix}_{iy}`, rendered from the bin
//! coordinates alone. Rendering is verified down to the character sequence,
//! so identical bin coordinates always yield the identical identifier.

use vstd::arithmetic::div_mod::lemma_fundamental_div_mod;
use vstd::prelude::*;
use vstd::string::StringExecFns;

verus! {

/// The decimal digit character for `d`.
pub open spec fn digit_char(d: int) -> char {
    if d == 0 {
        '0'
    } else if d == 1 {
        '1'
    } else if d == 2 {
        '2'
    } else if d == 3 {
        '3'
    } else if d == 4 {
        '4'
    } else if d == 5 {
        '5'
    } else if d == 6 {
        '6'
    } else if d == 7 {
        '7'
    } else if d == 8 {
        '8'
    } else {
        '9'
    }
}

/// The decimal rendering of `n`, most significant digit first.
pub open spec fn spec_decimal(n: nat) -> Seq<char>
    decreases n,
{
    if n < 10 {
        seq![digit_char(n as int)]
    } else {
        spec_decimal(n / 10).push(digit_char((n % 10) as int))
    }
}

/// The identifier text of the cluster at bin coordinates `(ix, iy)`.
pub open spec fn spec_cluster_id(ix: nat, iy: nat) -> Seq<char> {
    "cluster_"@ + spec_decimal(ix) + "_"@ + spec_decimal(iy)
}

/// The one-character string for a single decimal digit.
fn digit_str(d: u64) -> (r: &'static str)
    requires
        d < 10,
    ensures
        r@ == seq![digit_char(d as int)],
{
    proof {
        reveal_strlit("0");
        reveal_strlit("1");
        reveal_strlit("2");
        reveal_strlit("3");
        reveal_strlit("4");
        reveal_strlit("5");
        reveal_strlit("6");
        reveal_strlit("7");
        reveal_strlit("8");
        reveal_strlit("9");
    }
    let r = if d == 0 {
        "0"
    } else if d == 1 {
        "1"
    } else if d == 2 {
        "2"
    } else if d == 3 {
        "3"
    } else if d == 4 {
        "4"
    } else if d == 5 {
        "5"
    } else if d == 6 {
        "6"
    } else if d == 7 {
        "7"
    } else if d == 8 {
        "8"
    } else {
        "9"
    };
    proof {
        assert(r@ =~= seq![digit_char(d as int)]);
    }
    r
}

/// Renders `n` in decimal.
pub fn decimal_string(n: u64) -> (r: String)
    ensures
        r@ == spec_decimal(n as nat),
    decreases n,
{
    if n < 10 {
        String::from_str(digit_str(n))
    } else {
        proof {
            lemma_fundamental_div_mod(n as int, 10);
        }
        let mut s = decimal_string(n / 10);
        let d = digit_str(n % 10);
        let ghost prefix = s@;
        s.append(d);
        proof {
            assert(s@ =~= prefix.push(digit_char((n % 10) as int)));
        }
        s
    }
}

/// Renders the identifier of the cluster at bin coordinates `(ix, iy)`.
pub fn cluster_id(ix: u64, iy: u64) -> (r: String)
    ensures
        r@ == spec_cluster_id(ix as nat, iy as nat),
{
    let mut s = String::from_str("cluster_");
    let xs = decimal_string(ix);
    s.append(xs.as_str());
    s.append("_");
    let ys = decimal_string(iy);
    s.append(ys.as_str());
    proof {
        assert(s@ =~= spec_cluster_id(ix as nat, iy as nat));
    }
    s
}

} // verus!
