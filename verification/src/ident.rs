//! Identities of players and of connections.

use vstd::prelude::*;
use crate::text::{chars_of, string_of_ascii};

verus! {

/// Identity of a player: 128 bits, given out once per connection by the
/// server and used to join a session, a world entity and every message about
/// that player.
#[derive(Clone, Copy, Debug, PartialEq, Eq, Structural, Hash)]
pub struct PlayerId(pub u128);

/// Handle of one transport connection on the server. It means nothing to
/// anybody but the server that holds the connection.
#[derive(Clone, Copy, Debug, PartialEq, Eq, Structural, Hash)]
pub struct SessionId(pub u64);

/// The lower-case hexadecimal digit for a number below sixteen.
pub open spec fn hex_byte(n: int) -> u8 {
    if n < 10 {
        (48 + n) as u8
    } else {
        (87 + n) as u8
    }
}

/// The last `n` hexadecimal digits of `v`, the most significant first.
pub open spec fn hex_of(v: nat, n: nat) -> Seq<u8>
    decreases n,
{
    if n == 0 {
        Seq::empty()
    } else {
        hex_of(v / 16, (n - 1) as nat).push(hex_byte((v % 16) as int))
    }
}

impl PlayerId {
    /// The identity as 32 lower-case hexadecimal digits.
    pub open spec fn text_spec(self) -> Seq<char> {
        chars_of(hex_of(self.0 as nat, 32))
    }

    /// The identity as 32 lower-case hexadecimal digits, the way a UUID is
    /// written without hyphens.
    pub fn text(&self) -> (s: String)
        ensures
            s@ == self.text_spec(),
    {
        let mut digits: Vec<u8> = Vec::new();
        let mut rest: u128 = self.0;
        let mut k: usize = 0;
        assert(hex_of(rest as nat, 32) + digits@ =~= hex_of(self.0 as nat, 32));
        while k < 32
            invariant
                k <= 32,
                digits@.len() == k,
                forall|i: int| 0 <= i < digits@.len() ==> digits@[i] < 128,
                hex_of(self.0 as nat, 32) == hex_of(rest as nat, (32 - k) as nat) + digits@,
            decreases 32 - k,
        {
            let ghost before = digits@;
            let ghost whole = rest;
            let d: u8 = (rest % 16) as u8;
            let digit: u8 = if d < 10 {
                48 + d
            } else {
                87 + d
            };
            digits.insert(0, digit);
            rest = rest / 16;
            k += 1;
            proof {
                assert(digit == hex_byte((whole % 16) as int));
                assert(hex_of(whole as nat, (33 - k) as nat) == hex_of(
                    rest as nat,
                    (32 - k) as nat,
                ).push(digit));
                assert(hex_of(rest as nat, (32 - k) as nat).push(digit) + before =~= hex_of(
                    rest as nat,
                    (32 - k) as nat,
                ) + digits@);
            }
        }
        assert(hex_of(rest as nat, 0) + digits@ =~= digits@);
        string_of_ascii(digits)
    }
}

} // verus!
