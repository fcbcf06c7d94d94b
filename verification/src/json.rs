//! The JSON texts that a queued message carries.

use crate::decimal::decimal_digits;
use crate::views::seq_view;
use vstd::prelude::*;

verus! {

/// The items with commas between them.
pub open spec fn comma_separated(items: Seq<Seq<char>>) -> Seq<char>
    decreases items.len(),
{
    if items.len() == 0 {
        seq![]
    } else if items.len() == 1 {
        items[0]
    } else {
        comma_separated(items.drop_last()) + ","@ + items.last()
    }
}

/// A JSON array of the items, without spaces.
pub open spec fn json_array(items: Seq<Seq<char>>) -> Seq<char> {
    "["@ + comma_separated(items) + "]"@
}

/// A backoff schedule in JSON: an array of numbers.
pub open spec fn json_schedule(schedule: Seq<u64>) -> Seq<char> {
    json_array(Seq::new(schedule.len(), |i: int| decimal_digits(schedule[i] as nat)))
}

/// A byte string in JSON: an array of numbers.
pub open spec fn json_bytes(bytes: Seq<u8>) -> Seq<char> {
    json_array(Seq::new(bytes.len(), |i: int| decimal_digits(bytes[i] as nat)))
}

/// A list of keys in JSON: an array of arrays of numbers.
pub open spec fn json_keys(keys: Seq<Seq<u8>>) -> Seq<char> {
    json_array(Seq::new(keys.len(), |i: int| json_bytes(keys[i])))
}

/// What `serde_json::from_str` makes of a text as an optional list of 64-bit
/// numbers: the list, nothing where the text is `null`, or the text of its error.
pub uninterp spec fn schedule_in(text: Seq<char>) -> Result<Option<Seq<u64>>, Seq<char>>;

/// What `serde_json::from_str` makes of a text as a list of byte strings: the
/// list, or the text of its error.
pub uninterp spec fn keys_in(text: Seq<char>) -> Result<Seq<Seq<u8>>, Seq<char>>;

/// What a schedule that was read stands for.
pub open spec fn schedule_view(result: Result<Option<Vec<u64>>, String>) -> Result<
    Option<Seq<u64>>,
    Seq<char>,
> {
    match result {
        Ok(Some(schedule)) => Ok(Some(schedule@)),
        Ok(None) => Ok(None),
        Err(text) => Err(text@),
    }
}

/// What a list of keys that was read stands for.
pub open spec fn keys_view(result: Result<Vec<Vec<u8>>, String>) -> Result<
    Seq<Seq<u8>>,
    Seq<char>,
> {
    match result {
        Ok(keys) => Ok(seq_view(keys@)),
        Err(text) => Err(text@),
    }
}

/// That the text of a schedule is read as that schedule.
pub open spec fn reads_back_schedule(
    text: Seq<char>,
    read: Result<Option<Seq<u64>>, Seq<char>>,
) -> bool {
    forall|schedule: Seq<u64>|
        text == #[trigger] json_schedule(schedule) ==> read == Ok::<
            Option<Seq<u64>>,
            Seq<char>,
        >(Some(schedule))
}

/// That the text of a list of keys is read as that list.
pub open spec fn reads_back_keys(text: Seq<char>, read: Result<Seq<Seq<u8>>, Seq<char>>) -> bool {
    forall|keys: Seq<Seq<u8>>|
        text == #[trigger] json_keys(keys) ==> read == Ok::<Seq<Seq<u8>>, Seq<char>>(keys)
}

/// `serde_json::to_string` of a list of 64-bit numbers: an array without spaces,
/// the numbers in decimal. Writing numbers into memory does not fail.
#[verifier::external_body]
pub(crate) fn schedule_to_json(schedule: &Vec<u64>) -> (text: String)
    ensures
        text@ == json_schedule(schedule@),
{
    serde_json::to_string(schedule).unwrap()
}

/// `serde_json::to_string` of a list of byte strings: an array of arrays without
/// spaces, the bytes in decimal. Writing numbers into memory does not fail.
#[verifier::external_body]
pub(crate) fn keys_to_json(keys: &Vec<Vec<u8>>) -> (text: String)
    ensures
        text@ == json_keys(seq_view(keys@)),
{
    serde_json::to_string(keys).unwrap()
}

/// `serde_json::from_str` as an optional list of 64-bit numbers. The text of a
/// schedule gives that schedule back.
#[verifier::external_body]
pub(crate) fn schedule_from_json(text: &String) -> (result: Result<Option<Vec<u64>>, String>)
    ensures
        schedule_view(result) == schedule_in(text@),
        reads_back_schedule(text@, schedule_view(result)),
{
    serde_json::from_str::<Option<Vec<u64>>>(text).map_err(|e| e.to_string())
}

/// `serde_json::from_str` as a list of byte strings. The text of a list of keys
/// gives that list back.
#[verifier::external_body]
pub(crate) fn keys_from_json(text: &String) -> (result: Result<Vec<Vec<u8>>, String>)
    ensures
        keys_view(result) == keys_in(text@),
        reads_back_keys(text@, keys_view(result)),
{
    serde_json::from_str::<Vec<Vec<u8>>>(text).map_err(|e| e.to_string())
}

} // verus!
