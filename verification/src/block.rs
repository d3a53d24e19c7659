//! The address of one block: the name of a file and a block number in it.

use vstd::prelude::*;
use vstd::std_specs::cmp::PartialEqSpecImpl;
use vstd::string::StringExecFns;

verus! {

/// Identifies one fixed-size region of one file. A value never changes after
/// it is made; two are equal when file name and number are. The block number
/// is never negative.
#[derive(Debug, Hash)]
pub struct BlockId {
    filename: String,
    number: i32,
}

impl BlockId {
    #[verifier::type_invariant]
    spec fn number_is_not_negative(self) -> bool {
        self.number >= 0
    }
}

impl View for BlockId {
    type V = (Seq<char>, int);

    closed spec fn view(&self) -> (Seq<char>, int) {
        (self.filename@, self.number as int)
    }
}

/// The character that stands for the digit `d`.
pub open spec fn digit_char(d: nat) -> char
    recommends
        d < 10,
{
    if d == 0 {
        '0'
    } else if d == 1 {
        '1'
    } else if d == 2 {
        '2'
    } else if d == 3 {
        '3'
    } else if d == 4 {
        '4'
    } else if d == 5 {
        '5'
    } else if d == 6 {
        '6'
    } else if d == 7 {
        '7'
    } else if d == 8 {
        '8'
    } else {
        '9'
    }
}

/// The decimal numeral of `n`, without leading zeros.
pub open spec fn nat_decimal(n: nat) -> Seq<char>
    decreases n,
{
    if n < 10 {
        seq![digit_char(n)]
    } else {
        nat_decimal(n / 10).push(digit_char(n % 10))
    }
}

/// The display form of a block address: `[file F, block N]`.
pub open spec fn display_form(filename: Seq<char>, number: int) -> Seq<char>
    recommends
        0 <= number,
{
    seq!['[', 'f', 'i', 'l', 'e', ' '] + filename + seq![',', ' ', 'b', 'l', 'o', 'c', 'k', ' ']
        + nat_decimal(number as nat) + seq![']']
}

/// The numeral of a single digit.
fn digit_str(d: u64) -> (s: &'static str)
    requires
        d < 10,
    ensures
        s@ == seq![digit_char(d as nat)],
{
    proof {
        reveal_strlit("0");
        reveal_strlit("1");
        reveal_strlit("2");
        reveal_strlit("3");
        reveal_strlit("4");
        reveal_strlit("5");
        reveal_strlit("6");
        reveal_strlit("7");
        reveal_strlit("8");
        reveal_strlit("9");
    }
    let s = if d == 0 {
        "0"
    } else if d == 1 {
        "1"
    } else if d == 2 {
        "2"
    } else if d == 3 {
        "3"
    } else if d == 4 {
        "4"
    } else if d == 5 {
        "5"
    } else if d == 6 {
        "6"
    } else if d == 7 {
        "7"
    } else if d == 8 {
        "8"
    } else {
        "9"
    };
    assert(s@ =~= seq![digit_char(d as nat)]);
    s
}

/// The decimal numeral of `n`, built from the last digit to the first.
fn nat_to_decimal(n: u64) -> (s: String)
    ensures
        s@ == nat_decimal(n as nat),
{
    let mut rest: u64 = n;
    let mut digits = String::from_str(digit_str(rest % 10));
    while rest >= 10
        invariant
            nat_decimal(n as nat) == if rest < 10 {
                digits@
            } else {
                nat_decimal((rest / 10) as nat) + digits@
            },
        decreases rest,
    {
        rest = rest / 10;
        let ghost tail = digits@;
        digits = String::from_str(digit_str(rest % 10)).concat(digits.as_str());
        proof {
            let last = seq![digit_char((rest % 10) as nat)];
            if rest >= 10 {
                let front = nat_decimal((rest / 10) as nat);
                assert(nat_decimal(rest as nat) == front.push(digit_char((rest % 10) as nat)));
                assert(front.push(digit_char((rest % 10) as nat)) + tail =~= front + (last + tail));
            } else {
                assert(nat_decimal(rest as nat) == last);
            }
        }
    }
    digits
}

impl BlockId {
    /// The address of block `number` of the file `filename`. Blocks are
    /// counted from zero.
    pub fn new(filename: &str, number: i32) -> (block: BlockId)
        requires
            number >= 0,
        ensures
            block@ == (filename@, number as int),
    {
        BlockId { filename: String::from_str(filename), number }
    }

    /// The name of the file.
    pub fn filename(&self) -> (name: &str)
        ensures
            name@ == self@.0,
    {
        self.filename.as_str()
    }

    /// The number of the block within the file, which is never negative.
    pub fn number(&self) -> (n: i32)
        ensures
            n == self@.1,
            n >= 0,
    {
        proof {
            use_type_invariant(self);
        }
        self.number
    }

    /// The display form, for diagnostics: `[file F, block N]`.
    pub fn to_string(&self) -> (text: String)
        ensures
            text@ == display_form(self@.0, self@.1),
    {
        proof {
            reveal_strlit("[file ");
            reveal_strlit(", block ");
            reveal_strlit("]");
            use_type_invariant(self);
        }
        let mut text = String::from_str("[file ");
        text.append(self.filename.as_str());
        text.append(", block ");
        let digits = nat_to_decimal(self.number as u64);
        text.append(digits.as_str());
        text.append("]");
        assert(text@ =~= display_form(self@.0, self@.1));
        text
    }
}

impl Clone for BlockId {
    fn clone(&self) -> (copy: BlockId)
        ensures
            copy@ == self@,
    {
        proof {
            use_type_invariant(self);
        }
        BlockId { filename: self.filename.clone(), number: self.number }
    }
}

impl PartialEq for BlockId {
    fn eq(&self, other: &BlockId) -> (same: bool) {
        self.number == other.number && self.filename == other.filename
    }
}

impl PartialEqSpecImpl for BlockId {
    open spec fn obeys_eq_spec() -> bool {
        true
    }

    open spec fn eq_spec(&self, other: &BlockId) -> bool {
        self@ == other@
    }
}

impl Eq for BlockId {

}

} // verus!
