//! Random identifiers over the 62 letters and digits.

use crate::outside::{random_byte, thread_rng};
use vstd::prelude::*;

verus! {

/// A random identifier: a string of letters and digits, held as bytes.
pub struct Id(Vec<u8>);

/// The `k`-th character of the alphabet: the digits, then the capital
/// letters, then the small letters.
pub open spec fn base62_char(k: int) -> u8 {
    if k < 10 {
        (48 + k) as u8
    } else if k < 36 {
        (55 + k) as u8
    } else {
        (61 + k) as u8
    }
}

/// Whether `b` is a character of the alphabet.
pub open spec fn is_base62(b: u8) -> bool {
    (48 <= b <= 57) || (65 <= b <= 90) || (97 <= b <= 122)
}

/// The identifier that a run of random bytes gives: each byte picks the
/// character at its value modulo 62.
pub open spec fn id_from(random: Seq<u8>) -> Seq<u8> {
    Seq::new(random.len(), |i: int| base62_char(random[i] as int % 62))
}

/// 62 to the power of `n`.
pub open spec fn power62(n: nat) -> nat
    decreases n,
{
    if n == 0 {
        1
    } else {
        62 * power62((n - 1) as nat)
    }
}

/// Powers of 62 grow with the exponent.
pub proof fn lemma_power62_grows(a: nat, b: nat)
    requires
        a <= b,
    ensures
        1 <= power62(a) <= power62(b),
    decreases b,
{
    if a < b {
        lemma_power62_grows(a, (b - 1) as nat);
    } else if a > 0 {
        lemma_power62_grows((a - 1) as nat, (a - 1) as nat);
    }
}

impl View for Id {
    type V = Seq<u8>;

    closed spec fn view(&self) -> Seq<u8> {
        self.0@
    }
}

/// The character of the alphabet that a random byte picks.
pub fn pick(random: u8) -> (c: u8)
    ensures
        c == base62_char(random as int % 62),
        is_base62(c),
{
    let k = random % 62;
    if k < 10 {
        48 + k
    } else if k < 36 {
        55 + k
    } else {
        61 + k
    }
}

impl Id {
    /// The identifier that the given random bytes pick.
    pub fn from_random(random: &Vec<u8>) -> (id: Id)
        ensures
            id@ == id_from(random@),
    {
        let mut buf: Vec<u8> = Vec::new();
        let mut i: usize = 0;
        while i < random.len()
            invariant
                i <= random@.len(),
                buf@.len() == i,
                forall|k: int| 0 <= k < i ==> buf@[k] == base62_char(random@[k] as int % 62),
            decreases random@.len() - i,
        {
            buf.push(pick(random[i]));
            i = i + 1;
        }
        proof {
            assert(buf@ =~= id_from(random@));
        }
        Id(buf)
    }

    /// A fresh random identifier of `length` characters of the alphabet.
    /// Which characters they are is up to the random source.
    pub fn new(length: usize) -> (id: Id)
        ensures
            id@.len() == length,
            forall|i: int| 0 <= i < length ==> is_base62(#[trigger] id@[i]),
    {
        let mut rng = thread_rng();
        let mut random: Vec<u8> = Vec::new();
        let mut i: usize = 0;
        while i < length
            invariant
                i <= length,
                random@.len() == i,
            decreases length - i,
        {
            random.push(random_byte(&mut rng));
            i = i + 1;
        }
        let id = Id::from_random(&random);
        proof {
            lemma_id_from_alphabet(random@);
        }
        id
    }

    /// The characters of the identifier.
    pub fn into_inner(self) -> (bytes: Vec<u8>)
        ensures
            bytes@ == self@,
    {
        self.0
    }

    /// How many identifiers of `length` characters there are: 62 to the
    /// power of `length`.
    pub fn possible_ids(length: usize) -> (count: usize)
        requires
            power62(length as nat) <= usize::MAX,
        ensures
            count == power62(length as nat),
    {
        let mut count: usize = 1;
        let mut i: usize = 0;
        while i < length
            invariant
                i <= length,
                count == power62(i as nat),
                power62(length as nat) <= usize::MAX,
            decreases length - i,
        {
            proof {
                lemma_power62_grows((i + 1) as nat, length as nat);
            }
            count = count * 62;
            i = i + 1;
        }
        count
    }

    /// How many identifiers of `length` characters there are, or `None`
    /// where the number does not fit the machine word.
    pub fn checked_possible_ids(length: usize) -> (count: Option<usize>)
        ensures
            match count {
                Some(c) => c == power62(length as nat),
                None => power62(length as nat) > usize::MAX,
            },
    {
        let mut count: usize = 1;
        let mut i: usize = 0;
        while i < length
            invariant
                i <= length,
                count == power62(i as nat),
            decreases length - i,
        {
            match count.checked_mul(62) {
                Some(next) => {
                    count = next;
                },
                None => {
                    proof {
                        lemma_power62_grows((i + 1) as nat, length as nat);
                    }
                    return None;
                },
            }
            i = i + 1;
        }
        Some(count)
    }
}

/// Whatever the random bytes, the identifier is made of the alphabet and as
/// long as they are.
pub proof fn lemma_id_from_alphabet(random: Seq<u8>)
    ensures
        id_from(random).len() == random.len(),
        forall|i: int| 0 <= i < random.len() ==> is_base62(#[trigger] id_from(random)[i]),
{
}

} // verus!
