use vstd::prelude::*;

verus! {

/// An opaque, strictly positive 64-bit identifier for a channel or a message.
///
/// The remote service promises nothing about it beyond uniqueness and rough
/// chronological ordering, so the engine treats it as a token: it is compared,
/// stored as a pagination boundary, and handed back to the caller for request
/// construction, never inspected.
#[derive(Clone, Copy, Debug, PartialEq, Eq, Structural)]
pub struct Snowflake {
    id: u64,
}

impl Snowflake {
    /// The raw identifier value.
    pub closed spec fn spec_id(self) -> u64 {
        self.id
    }

    /// A snowflake is well formed exactly when its identifier is non-zero.
    pub open spec fn wf(self) -> bool {
        self.spec_id() != 0
    }

    /// Builds a snowflake from a raw value; zero is not a valid identifier.
    pub fn new(id: u64) -> (r: Option<Snowflake>)
        ensures
            id != 0 ==> (r matches Some(s) && s.spec_id() == id && s.wf()),
            id == 0 ==> r is None,
    {
        if id == 0 {
            None
        } else {
            Some(Snowflake { id })
        }
    }

    /// The raw identifier.
    pub fn get(self) -> (r: u64)
        ensures
            r == self.spec_id(),
    {
        self.id
    }
}

/// Every byte is an ASCII decimal digit.
pub open spec fn all_digits(s: Seq<u8>) -> bool {
    forall|j: int| 0 <= j < s.len() ==> 48 <= #[trigger] s[j] <= 57
}

/// The bytes spell a number in ASCII decimal: at least one byte, all digits.
pub open spec fn is_digit_string(s: Seq<u8>) -> bool {
    s.len() > 0 && all_digits(s)
}

/// The numeric value of a string of ASCII decimal digits, leading zeros
/// allowed.
pub open spec fn spec_decimal_value(s: Seq<u8>) -> int
    recommends
        all_digits(s),
    decreases s.len(),
{
    if s.len() == 0 {
        0
    } else {
        spec_decimal_value(s.drop_last()) * 10 + (s.last() as int - 48)
    }
}

proof fn lemma_decimal_value_nonneg(s: Seq<u8>)
    requires
        all_digits(s),
    ensures
        spec_decimal_value(s) >= 0,
    decreases s.len(),
{
    if s.len() > 0 {
        assert(all_digits(s.drop_last()));
        lemma_decimal_value_nonneg(s.drop_last());
    }
}

proof fn lemma_decimal_prefix_le(s: Seq<u8>, i: int)
    requires
        all_digits(s),
        0 <= i <= s.len(),
    ensures
        spec_decimal_value(s.take(i)) <= spec_decimal_value(s),
    decreases s.len() - i,
{
    if i == s.len() {
        assert(s.take(i) =~= s);
    } else {
        assert(s.take(i + 1).drop_last() =~= s.take(i));
        assert(s.take(i + 1).last() == s[i]);
        assert(all_digits(s.take(i)));
        lemma_decimal_value_nonneg(s.take(i));
        lemma_decimal_prefix_le(s, i + 1);
    }
}

/// Reads an item identifier from the decimal digits the remote service
/// sends: some identifier exactly when the bytes are one or more ASCII
/// digits whose value is positive and fits in 64 bits, and then the
/// identifier carries that value.
pub fn parse_snowflake(digits: &[u8]) -> (r: Option<Snowflake>)
    ensures
        r is Some <==> is_digit_string(digits@) && 0 < spec_decimal_value(digits@) <= u64::MAX,
        r matches Some(s) ==> s.spec_id() == spec_decimal_value(digits@) && s.wf(),
{
    if digits.len() == 0 {
        return Option::None;
    }
    let mut acc: u64 = 0;
    let mut i: usize = 0;
    while i < digits.len()
        invariant
            0 < digits@.len(),
            0 <= i <= digits@.len(),
            acc == spec_decimal_value(digits@.take(i as int)),
            all_digits(digits@.take(i as int)),
        decreases digits@.len() - i,
    {
        let b = digits[i];
        if b < 48 || b > 57 {
            return Option::None;
        }
        let d = (b - 48) as u64;
        proof {
            assert(digits@.take(i + 1 as int).drop_last() =~= digits@.take(i as int));
            assert(digits@.take(i + 1 as int).last() == digits@[i as int]);
            assert(all_digits(digits@.take(i + 1 as int)));
        }
        let scaled = match acc.checked_mul(10) {
            Option::Some(v) => v,
            Option::None => {
                proof {
                    if is_digit_string(digits@) {
                        lemma_decimal_prefix_le(digits@, i + 1 as int);
                    }
                }
                return Option::None;
            },
        };
        acc = match scaled.checked_add(d) {
            Option::Some(v) => v,
            Option::None => {
                proof {
                    if is_digit_string(digits@) {
                        lemma_decimal_prefix_le(digits@, i + 1 as int);
                    }
                }
                return Option::None;
            },
        };
        i = i + 1;
    }
    proof {
        assert(digits@.take(i as int) =~= digits@);
    }
    if acc == 0 {
        Option::None
    } else {
        Option::Some(Snowflake { id: acc })
    }
}

} // verus!
