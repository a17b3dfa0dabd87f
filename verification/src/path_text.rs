use vstd::prelude::*;

use crate::swarm::SwarmName;
use std::path::PathBuf;
use vstd::utf8::{encode_utf8, is_char_boundary, valid_utf8};

verus! {

broadcast use vstd::utf8::encode_utf8_valid_utf8;

#[verifier::external_type_specification]
#[verifier::external_body]
pub struct ExPathBuf(PathBuf);

/// `PathBuf::new`, the empty path. Paths have no model here, so nothing is
/// stated of it.
#[verifier::external_body]
fn empty_path() -> PathBuf {
    PathBuf::new()
}

/// `Path::join`: `base` with `part` adjoined as one more component. Paths
/// have no model here, so nothing is stated of the result.
#[verifier::external_body]
fn path_join(base: &PathBuf, part: &str) -> PathBuf {
    base.join(part)
}

/// The lower-case hexadecimal digit for `d`.
pub open spec fn hex_digit(d: u64) -> char {
    if d < 10 {
        (d + 48) as char
    } else {
        (d + 87) as char
    }
}

/// The lower-case hexadecimal text of `x`, without leading zeros.
pub open spec fn hex_text(x: u64) -> Seq<char>
    decreases x,
{
    if x < 16 {
        seq![hex_digit(x)]
    } else {
        hex_text(x / 16) + seq![hex_digit(x % 16)]
    }
}

/// How many bytes `/` the bytes `b` start with.
pub open spec fn leading_slashes(b: Seq<u8>) -> nat
    decreases b.len(),
{
    if b.len() > 0 && b[0] == 47 {
        1 + leading_slashes(b.skip(1))
    } else {
        0
    }
}

/// The hexadecimal digit `d` as text.
fn hex_digit_text(d: u64) -> (res: &'static str)
    requires
        d < 16,
    ensures
        res@ == seq![hex_digit(d)],
{
    match d {
        0 => {
            proof {
                reveal_strlit("0");
            }
            "0"
        },
        1 => {
            proof {
                reveal_strlit("1");
            }
            "1"
        },
        2 => {
            proof {
                reveal_strlit("2");
            }
            "2"
        },
        3 => {
            proof {
                reveal_strlit("3");
            }
            "3"
        },
        4 => {
            proof {
                reveal_strlit("4");
            }
            "4"
        },
        5 => {
            proof {
                reveal_strlit("5");
            }
            "5"
        },
        6 => {
            proof {
                reveal_strlit("6");
            }
            "6"
        },
        7 => {
            proof {
                reveal_strlit("7");
            }
            "7"
        },
        8 => {
            proof {
                reveal_strlit("8");
            }
            "8"
        },
        9 => {
            proof {
                reveal_strlit("9");
            }
            "9"
        },
        10 => {
            proof {
                reveal_strlit("a");
            }
            "a"
        },
        11 => {
            proof {
                reveal_strlit("b");
            }
            "b"
        },
        12 => {
            proof {
                reveal_strlit("c");
            }
            "c"
        },
        13 => {
            proof {
                reveal_strlit("d");
            }
            "d"
        },
        14 => {
            proof {
                reveal_strlit("e");
            }
            "e"
        },
        _ => {
            proof {
                reveal_strlit("f");
            }
            "f"
        },
    }
}

/// Appends the hexadecimal text of `x` to `s`.
fn append_hex(s: &mut String, x: u64)
    ensures
        final(s)@ == old(s)@ + hex_text(x),
    decreases x,
{
    if x >= 16 {
        append_hex(s, x / 16);
    }
    s.append(hex_digit_text(x % 16));
    proof {
        if x < 16 {
            assert(x % 16 == x);
        }
    }
}

impl SwarmName {
    /// The two parts of the path under which a swarm keeps its files: the
    /// name without the slashes it starts with, and the founder as `GID-`
    /// followed by its id in lower-case hexadecimal.
    pub fn path_parts(&self) -> (res: (String, String))
        ensures
            encode_utf8(res.0@) == encode_utf8(self.name@).skip(leading_slashes(encode_utf8(self.name@)) as int),
            res.1@ == "GID-"@ + hex_text(self.founder.0),
    {
        let mut rest: &str = self.name.as_str();
        let ghost all = encode_utf8(self.name@);
        let ghost mut k: nat = 0;
        proof {
            assert(all.skip(0) =~= all);
        }
        loop
            invariant
                valid_utf8(all),
                k <= all.len(),
                encode_utf8(rest@) == all.skip(k as int),
                leading_slashes(all) == k + leading_slashes(all.skip(k as int)),
            ensures
                valid_utf8(all),
                encode_utf8(rest@) == all.skip(k as int),
                leading_slashes(all) == k,
            decreases encode_utf8(rest@).len(),
        {
            let bytes = rest.as_bytes();
            if bytes.len() == 0 || bytes[0] != 47 {
                break;
            }
            let ghost b = bytes@;
            proof {
                assert(valid_utf8(b));
                reveal_with_fuel(is_char_boundary, 2);
                assert(is_char_boundary(b, 1));
            }
            let (_slash, tail) = rest.split_at(1);
            rest = tail;
            proof {
                assert(b.skip(1) =~= b.subrange(1, b.len() as int));
                assert(all.skip(k as int).skip(1) =~= all.skip((k + 1) as int));
                k = k + 1;
            }
        }
        let trimmed = rest.to_owned();
        let mut founder = String::from_str("GID-");
        proof {
            reveal_strlit("GID-");
        }
        append_hex(&mut founder, self.founder.0);
        (trimmed, founder)
    }

    /// The path under which a swarm keeps its files: the two parts of
    /// `path_parts`, joined one after the other to the empty path.
    pub fn to_path(&self) -> PathBuf {
        let (trimmed, founder) = self.path_parts();
        let base = empty_path();
        let named = path_join(&base, trimmed.as_str());
        path_join(&named, founder.as_str())
    }
}

} // verus!
