use vstd::prelude::*;
use std::collections::hash_map::DefaultHasher;
use std::hash::{Hash, Hasher};
use vstd::std_specs::hash::DefaultHasherAdditionalSpecFns;

verus! {

/// The character of a decimal digit.
pub open spec fn digit_char(d: nat) -> char {
    if d == 0 { '0' }
    else if d == 1 { '1' }
    else if d == 2 { '2' }
    else if d == 3 { '3' }
    else if d == 4 { '4' }
    else if d == 5 { '5' }
    else if d == 6 { '6' }
    else if d == 7 { '7' }
    else if d == 8 { '8' }
    else { '9' }
}

/// The decimal notation of a natural number, without leading zeros.
pub open spec fn decimal(n: nat) -> Seq<char>
    decreases n,
{
    if n < 10 {
        seq![digit_char(n)]
    } else {
        decimal(n / 10).push(digit_char(n % 10))
    }
}

fn digit_str(d: u64) -> (s: &'static str)
    requires
        d < 10,
    ensures
        s@ == seq![digit_char(d as nat)],
{
    proof {
        reveal_strlit("0");
        reveal_strlit("1");
        reveal_strlit("2");
        reveal_strlit("3");
        reveal_strlit("4");
        reveal_strlit("5");
        reveal_strlit("6");
        reveal_strlit("7");
        reveal_strlit("8");
        reveal_strlit("9");
    }
    if d == 0 { "0" }
    else if d == 1 { "1" }
    else if d == 2 { "2" }
    else if d == 3 { "3" }
    else if d == 4 { "4" }
    else if d == 5 { "5" }
    else if d == 6 { "6" }
    else if d == 7 { "7" }
    else if d == 8 { "8" }
    else { "9" }
}

/// Writes `n` in decimal, as `format!("{}", n)` does for a `u64`.
pub fn u64_to_decimal(n: u64) -> (s: String)
    ensures
        s@ == decimal(n as nat),
{
    let mut digits: Vec<u64> = Vec::new();
    let mut m: u64 = n;
    // digits holds the low-order digits of n, lowest first
    while m >= 10
        invariant
            decimal(n as nat) == decimal(m as nat) + digits_text(digits@),
            forall|j: int| 0 <= j < digits.len() ==> digits@[j] < 10,
        decreases m,
    {
        let d = m % 10;
        proof {
            let ds = digits@.insert(0, d);
            assert(ds.subrange(1, ds.len() as int) =~= digits@);
            assert(digits_text(ds) == seq![digit_char(d as nat)] + digits_text(digits@));
            assert(decimal(m as nat) == decimal((m / 10) as nat).push(digit_char(d as nat)));
            assert(decimal(m as nat) + digits_text(digits@) =~= decimal((m / 10) as nat) + digits_text(ds));
        }
        digits.insert(0, d);
        m = m / 10;
    }
    let mut s = String::from_str(digit_str(m));
    assert(digits@.subrange(0, digits.len() as int) =~= digits@);
    let mut i: usize = 0;
    while i < digits.len()
        invariant
            0 <= i <= digits.len(),
            forall|j: int| 0 <= j < digits.len() ==> digits@[j] < 10,
            decimal(n as nat) == s@ + digits_text(digits@.subrange(i as int, digits.len() as int)),
        decreases digits.len() - i,
    {
        proof {
            let rest = digits@.subrange(i as int, digits.len() as int);
            assert(rest.subrange(1, rest.len() as int) =~= digits@.subrange(i + 1, digits.len() as int));
        }
        s.append(digit_str(digits[i]));
        i = i + 1;
    }
    s
}

/// The text of a sequence of digits, most significant first.
pub open spec fn digits_text(ds: Seq<u64>) -> Seq<char>
    decreases ds.len(),
{
    if ds.len() == 0 {
        seq![]
    } else {
        seq![digit_char(ds[0] as nat)] + digits_text(ds.subrange(1, ds.len() as int))
    }
}

/// The directory that holds the stores.
pub const SAVE_DIR: &'static str = "./saves";

/// The extension of a store's file name.
pub const FILE_EXT: &'static str = "msglog";

/// The writes that `Hash::hash` makes for a `str` into a `DefaultHasher`,
/// after the earlier writes `prior`.
pub uninterp spec fn str_hash_writes(prior: Seq<Seq<u8>>, text: Seq<char>) -> Seq<Seq<u8>>;

/// `<str as Hash>::hash` into a `DefaultHasher`. The writes that it makes
/// depend on the text alone; std documents no more of them.
#[verifier::external_body]
fn hash_str_into(text: &str, state: &mut DefaultHasher)
    ensures
        final(state)@ == str_hash_writes(old(state)@, text@),
{
    text.hash(state)
}

/// The hash of a text by a fresh `DefaultHasher` (whose `new` always starts
/// from the same keys).
pub open spec fn text_hash(text: Seq<char>) -> u64 {
    DefaultHasher::spec_finish(str_hash_writes(Seq::<Seq<u8>>::empty(), text))
}

/// Hashes a text with a fresh `DefaultHasher`.
pub fn hash_text(text: &str) -> (h: u64)
    ensures
        h == text_hash(text@),
{
    let mut hasher = DefaultHasher::new();
    hash_str_into(text, &mut hasher);
    hasher.finish()
}

/// The hash of a text, written in decimal.
pub fn calc_hash(text: &str) -> (s: String)
    ensures
        s@ == decimal(text_hash(text@) as nat),
{
    u64_to_decimal(hash_text(text))
}

/// The file name of the store of `name` in `group`: the hash of
/// `name@group`, in the save directory, with the store extension.
pub open spec fn store_file_name(name: Seq<char>, group: Seq<char>) -> Seq<char> {
    SAVE_DIR@ + "/"@ + decimal(text_hash(name + "@"@ + group) as nat) + "."@ + FILE_EXT@
}

/// Names the store file of `name` in `group`.
pub fn fmt_file_name(name: &str, group: &str) -> (s: String)
    ensures
        s@ == store_file_name(name@, group@),
{
    let mut key = String::from_str(name);
    key.append("@");
    key.append(group);
    let hashed = calc_hash(key.as_str());
    let mut s = String::from_str(SAVE_DIR);
    s.append("/");
    s.append(hashed.as_str());
    s.append(".");
    s.append(FILE_EXT);
    s
}

} // verus!
