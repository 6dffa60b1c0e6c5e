//! What numbers in decimal notation, missing texts and finds in bytes are, in terms
//! of the characters and bytes themselves.

use vstd::prelude::*;
use crate::text::{decimal, occurs, occurs_at, optional_text};

verus! {

/// Reading the decimal notation of a number back gives the number.
pub proof fn decimal_reads_back(n: nat)
    ensures
        decimal(n).fold_left(0int, |read: int, c: char| 10 * read + (c as int - 48)) == n,
    decreases n,
{
    let step = |read: int, c: char| 10 * read + (c as int - 48);
    let text = decimal(n);
    reveal_with_fuel(Seq::fold_left, 2);
    if n < 10 {
        assert(text.drop_last() =~= Seq::empty());
        assert(text.last() as int == 48 + n);
        assert(text.fold_left(0int, step) == n);
    } else {
        decimal_reads_back(n / 10);
        assert(text.drop_last() =~= decimal(n / 10));
        assert(text.last() as int == 48 + n % 10);
        assert(text.fold_left(0int, step) == n);
    }
}

/// The decimal notation of a number is made of the digits 0 to 9, and it begins with
/// 0 for the number 0 alone, of which it is all.
pub proof fn decimal_is_plain(n: nat)
    ensures
        decimal(n).len() > 0,
        forall|i: int| 0 <= i < decimal(n).len() ==> 48 <= #[trigger] decimal(n)[i] as int <= 57,
        n > 0 ==> decimal(n)[0] as int != 48,
        n == 0 ==> decimal(n).len() == 1,
    decreases n,
{
    if n >= 10 {
        decimal_is_plain(n / 10);
    }
}

/// Different numbers have different notations.
pub proof fn decimal_tells_numbers_apart(m: nat, n: nat)
    requires
        decimal(m) == decimal(n),
    ensures
        m == n,
{
    decimal_reads_back(m);
    decimal_reads_back(n);
}

/// A text that may be missing is what it is, in full.
pub proof fn optional_text_is_all_of_it(s: Option<String>)
    ensures
        s matches Some(text) ==> optional_text(s) == Some(text@),
        s is None ==> optional_text(s) is None,
{
}

/// To stand at an index is to agree there, element by element.
pub proof fn occurs_at_each_element<T>(needle: Seq<T>, hay: Seq<T>, i: int)
    ensures
        occurs_at(needle, hay, i) <==> {
            &&& 0 <= i
            &&& i + needle.len() <= hay.len()
            &&& forall|k: int| 0 <= k < needle.len() ==> hay[i + k] == #[trigger] needle[k]
        },
{
    if 0 <= i && i + needle.len() <= hay.len() {
        let window = hay.subrange(i, i + needle.len());
        assert forall|k: int| 0 <= k < needle.len() implies #[trigger] window[k] == hay[i + k] by {}
        if occurs_at(needle, hay, i) {
            assert forall|k: int| 0 <= k < needle.len() implies hay[i + k] == #[trigger] needle[k] by {
                assert(window[k] == hay[i + k]);
            }
        }
        if forall|k: int| 0 <= k < needle.len() ==> hay[i + k] == #[trigger] needle[k] {
            assert(window =~= needle);
        }
    }
}

/// What is put between two others is found there, and what is found lies between two
/// others.
pub proof fn found_is_between<T>(needle: Seq<T>, hay: Seq<T>)
    ensures
        occurs(needle, hay) <==> exists|before: Seq<T>, after: Seq<T>|
            hay == #[trigger] (before + needle + after),
{
    if occurs(needle, hay) {
        let i = choose|i: int| occurs_at(needle, hay, i);
        let before = hay.take(i);
        let after = hay.skip(i + needle.len());
        assert(hay =~= before + needle + after);
    }
    if exists|before: Seq<T>, after: Seq<T>| hay == #[trigger] (before + needle + after) {
        let (before, after) = choose|before: Seq<T>, after: Seq<T>|
            hay == #[trigger] (before + needle + after);
        let i = before.len() as int;
        assert(hay.subrange(i, i + needle.len()) =~= needle);
        assert(occurs_at(needle, hay, i));
    }
}

} // verus!
