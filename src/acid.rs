//! ACID numbers: their format and the static allow-list.
use vstd::prelude::*;
use vstd::string::StrSliceExecFns;

verus! {

/// An ACID number is exactly nine ASCII digits.
pub open spec fn acid_format_ok(s: Seq<char>) -> bool {
    s.len() == 9 && forall|i: int| 0 <= i < s.len() ==> '0' <= #[trigger] s[i] <= '9'
}

/// The ACID numbers that customs recognises.
pub open spec fn acid_allow_list() -> Seq<Seq<char>> {
    seq![
        seq!['1', '2', '3', '4', '5', '6', '7', '8', '9'],
        seq!['9', '8', '7', '6', '5', '4', '3', '2', '1'],
        seq!['4', '5', '6', '7', '8', '9', '1', '2', '3'],
        seq!['7', '8', '9', '1', '2', '3', '4', '5', '6'],
        seq!['3', '2', '1', '6', '5', '4', '9', '8', '7'],
    ]
}

/// Whether the text has the ACID number format.
pub fn is_acid_format(acid_number: &str) -> (r: bool)
    ensures
        r == acid_format_ok(acid_number@),
{
    let n = acid_number.unicode_len();
    if n != 9 {
        return false;
    }
    let mut i: usize = 0;
    while i < n
        invariant
            n == acid_number@.len(),
            i <= n,
            forall|j: int| 0 <= j < i ==> '0' <= #[trigger] acid_number@[j] <= '9',
        decreases n - i,
    {
        let c = acid_number.get_char(i);
        if c < '0' || c > '9' {
            return false;
        }
        i = i + 1;
    }
    true
}

/// Whether the ACID number is on the static allow-list.
pub fn is_acid_in_static_dataset(acid_number: &str) -> (r: bool)
    ensures
        r == acid_allow_list().contains(acid_number@),
{
    let valid_acids: [&str; 5] = ["123456789", "987654321", "456789123", "789123456", "321654987"];
    proof {
        reveal_strlit("123456789");
        reveal_strlit("987654321");
        reveal_strlit("456789123");
        reveal_strlit("789123456");
        reveal_strlit("321654987");
        assert(acid_allow_list()[0] =~= "123456789"@);
        assert(acid_allow_list()[1] =~= "987654321"@);
        assert(acid_allow_list()[2] =~= "456789123"@);
        assert(acid_allow_list()[3] =~= "789123456"@);
        assert(acid_allow_list()[4] =~= "321654987"@);
    }
    let candidate = String::from_str(acid_number);
    let mut i: usize = 0;
    while i < 5
        invariant
            i <= 5,
            candidate@ == acid_number@,
            forall|k: int| 0 <= k < 5 ==> (#[trigger] valid_acids@[k])@ == acid_allow_list()[k],
            forall|k: int| 0 <= k < i ==> acid_allow_list()[k] != acid_number@,
        decreases 5 - i,
    {
        let known = String::from_str(valid_acids[i]);
        if known == candidate {
            assert(acid_allow_list()[i as int] == acid_number@);
            return true;
        }
        i = i + 1;
    }
    proof {
        if acid_allow_list().contains(acid_number@) {
            let k = choose|k: int| 0 <= k < 5 && acid_allow_list()[k] == acid_number@;
            assert(acid_allow_list()[k] != acid_number@);
        }
    }
    false
}

} // verus!
