use vstd::prelude::*;

use crate::geometry::Direction;

verus! {

/// The decimal digit character for `d < 10`.
pub open spec fn digit_char(d: nat) -> char {
    if d == 0 {
        '0'
    } else if d == 1 {
        '1'
    } else if d == 2 {
        '2'
    } else if d == 3 {
        '3'
    } else if d == 4 {
        '4'
    } else if d == 5 {
        '5'
    } else if d == 6 {
        '6'
    } else if d == 7 {
        '7'
    } else if d == 8 {
        '8'
    } else {
        '9'
    }
}

/// The decimal representation of `n`, without sign or leading zeros.
pub open spec fn decimal(n: nat) -> Seq<char>
    decreases n,
{
    if n < 10 {
        seq![digit_char(n)]
    } else {
        decimal(n / 10).push(digit_char(n % 10))
    }
}

fn digit_str(d: usize) -> (r: &'static str)
    requires
        d < 10,
    ensures
        r@ == seq![digit_char(d as nat)],
{
    if d == 0 {
        proof {
            reveal_strlit("0");
        }
        "0"
    } else if d == 1 {
        proof {
            reveal_strlit("1");
        }
        "1"
    } else if d == 2 {
        proof {
            reveal_strlit("2");
        }
        "2"
    } else if d == 3 {
        proof {
            reveal_strlit("3");
        }
        "3"
    } else if d == 4 {
        proof {
            reveal_strlit("4");
        }
        "4"
    } else if d == 5 {
        proof {
            reveal_strlit("5");
        }
        "5"
    } else if d == 6 {
        proof {
            reveal_strlit("6");
        }
        "6"
    } else if d == 7 {
        proof {
            reveal_strlit("7");
        }
        "7"
    } else if d == 8 {
        proof {
            reveal_strlit("8");
        }
        "8"
    } else {
        proof {
            reveal_strlit("9");
        }
        "9"
    }
}

/// Appends the decimal representation of `n` to `s`.
pub fn append_decimal(s: &mut String, n: usize)
    ensures
        final(s)@ == old(s)@ + decimal(n as nat),
    decreases n,
{
    if n < 10 {
        s.append(digit_str(n));
    } else {
        append_decimal(s, n / 10);
        s.append(digit_str(n % 10));
        proof {
            assert(decimal(n as nat) == decimal((n / 10) as nat).push(digit_char((n % 10) as nat)));
        }
    }
}

/// The decimal representation of `n`.
pub fn usize_to_decimal(n: usize) -> (r: String)
    ensures
        r@ == decimal(n as nat),
{
    let mut s = String::new();
    append_decimal(&mut s, n);
    proof {
        assert(s@ =~= decimal(n as nat));
    }
    s
}

pub const BLOCK_DEF_OPEN: &'static str = "            <MyObjectBuilder_CubeBlock xsi:type=\"MyObjectBuilder_CubeBlock\">\n                <SubtypeName>";
pub const BLOCK_DEF_MIN_X: &'static str = "</SubtypeName>\n                <Min x=\"";
pub const BLOCK_DEF_MIN_Y: &'static str = "\" y=\"";
pub const BLOCK_DEF_MIN_Z: &'static str = "\" z=\"";
pub const BLOCK_DEF_FORWARD: &'static str = "\" />\n                <BlockOrientation Forward=\"";
pub const BLOCK_DEF_UP: &'static str = "\" Up=\"";
pub const BLOCK_DEF_CLOSE: &'static str = "\" />\n                <BuiltBy>0</BuiltBy>\n            </MyObjectBuilder_CubeBlock>";

/// The blueprint entry for a block of subtype `subtype` at cell `(x, y, z)`
/// with the given forward and up directions.
pub open spec fn block_def_spec(
    subtype: Seq<char>,
    x: nat,
    y: nat,
    z: nat,
    fwd: Direction,
    up: Direction,
) -> Seq<char> {
    BLOCK_DEF_OPEN@ + subtype + BLOCK_DEF_MIN_X@ + decimal(x) + BLOCK_DEF_MIN_Y@ + decimal(y)
        + BLOCK_DEF_MIN_Z@ + decimal(z) + BLOCK_DEF_FORWARD@ + fwd.name_of() + BLOCK_DEF_UP@
        + up.name_of() + BLOCK_DEF_CLOSE@
}

/// The blueprint entry (`MyObjectBuilder_CubeBlock` element) for one block.
pub fn format_block_def(
    subtype: &str,
    x: usize,
    y: usize,
    z: usize,
    fwd: Direction,
    up: Direction,
) -> (r: String)
    ensures
        r@ == block_def_spec(subtype@, x as nat, y as nat, z as nat, fwd, up),
{
    let mut s = String::new();
    s.append(BLOCK_DEF_OPEN);
    s.append(subtype);
    s.append(BLOCK_DEF_MIN_X);
    append_decimal(&mut s, x);
    s.append(BLOCK_DEF_MIN_Y);
    append_decimal(&mut s, y);
    s.append(BLOCK_DEF_MIN_Z);
    append_decimal(&mut s, z);
    s.append(BLOCK_DEF_FORWARD);
    s.append(fwd.name());
    s.append(BLOCK_DEF_UP);
    s.append(up.name());
    s.append(BLOCK_DEF_CLOSE);
    proof {
        assert(s@ =~= block_def_spec(subtype@, x as nat, y as nat, z as nat, fwd, up));
    }
    s
}

} // verus!
