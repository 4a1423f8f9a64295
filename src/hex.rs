use vstd::prelude::*;
use vstd::string::{StringExecFns, StringSliceAdditionalSpecFns};

verus! {

/// The upper-case hexadecimal digit for `n`, below 16.
pub open spec fn hex_digit(n: u8) -> char {
    if n == 0 {
        '0'
    } else if n == 1 {
        '1'
    } else if n == 2 {
        '2'
    } else if n == 3 {
        '3'
    } else if n == 4 {
        '4'
    } else if n == 5 {
        '5'
    } else if n == 6 {
        '6'
    } else if n == 7 {
        '7'
    } else if n == 8 {
        '8'
    } else if n == 9 {
        '9'
    } else if n == 10 {
        'A'
    } else if n == 11 {
        'B'
    } else if n == 12 {
        'C'
    } else if n == 13 {
        'D'
    } else if n == 14 {
        'E'
    } else {
        'F'
    }
}

/// Two upper-case hexadecimal digits per byte, high nibble first.
pub open spec fn hex_of(b: Seq<u8>) -> Seq<char>
    decreases b.len(),
{
    if b.len() == 0 {
        seq![]
    } else {
        hex_of(b.drop_last()) + seq![hex_digit(b.last() >> 4u8), hex_digit(b.last() & 0x0fu8)]
    }
}

fn digit(n: u8) -> (r: &'static str)
    requires
        n < 16,
    ensures
        r@ == seq![hex_digit(n)],
{
    if n == 0 {
        proof {
            reveal_strlit("0");
        }
        "0"
    } else if n == 1 {
        proof {
            reveal_strlit("1");
        }
        "1"
    } else if n == 2 {
        proof {
            reveal_strlit("2");
        }
        "2"
    } else if n == 3 {
        proof {
            reveal_strlit("3");
        }
        "3"
    } else if n == 4 {
        proof {
            reveal_strlit("4");
        }
        "4"
    } else if n == 5 {
        proof {
            reveal_strlit("5");
        }
        "5"
    } else if n == 6 {
        proof {
            reveal_strlit("6");
        }
        "6"
    } else if n == 7 {
        proof {
            reveal_strlit("7");
        }
        "7"
    } else if n == 8 {
        proof {
            reveal_strlit("8");
        }
        "8"
    } else if n == 9 {
        proof {
            reveal_strlit("9");
        }
        "9"
    } else if n == 10 {
        proof {
            reveal_strlit("A");
        }
        "A"
    } else if n == 11 {
        proof {
            reveal_strlit("B");
        }
        "B"
    } else if n == 12 {
        proof {
            reveal_strlit("C");
        }
        "C"
    } else if n == 13 {
        proof {
            reveal_strlit("D");
        }
        "D"
    } else if n == 14 {
        proof {
            reveal_strlit("E");
        }
        "E"
    } else {
        proof {
            reveal_strlit("F");
        }
        "F"
    }
}

/// The bytes of `i`, in upper-case hexadecimal.
pub fn hex(i: &str) -> (r: String)
    ensures
        r@ == hex_of(i.spec_bytes()),
{
    let b = i.as_bytes();
    let mut s = String::new();
    let mut k: usize = 0;
    assert(b@.subrange(0, 0) =~= Seq::<u8>::empty());
    while k < b.len()
        invariant
            k <= b@.len(),
            b@ == i.spec_bytes(),
            s@ == hex_of(b@.subrange(0, k as int)),
        decreases b@.len() - k,
    {
        let x = b[k];
        assert(x >> 4u8 < 16u8) by (bit_vector);
        assert(x & 0x0fu8 < 16u8) by (bit_vector);
        s.append(digit(x >> 4u8));
        s.append(digit(x & 0x0fu8));
        assert(b@.subrange(0, k + 1).drop_last() =~= b@.subrange(0, k as int));
        assert(s@ =~= hex_of(b@.subrange(0, k + 1)));
        k += 1;
    }
    assert(b@.subrange(0, k as int) =~= b@);
    s
}

} // verus!
