//! What is said to the mail server and what is made of its answers: the port,
//! the mailbox, the search and fetch arguments, and the text of the bodies
//! that come back.

use crate::session::item_texts;
use crate::text::from_chars;
use vstd::prelude::*;
use vstd::string::StringExecFns;
use vstd::utf8::{decode_utf8, valid_utf8};

verus! {

/// The port of the mail service over an encrypted channel.
pub const SECURE_PORT: u16 = 993;

/// The mailbox that is searched.
pub fn mailbox() -> (name: &'static str)
    ensures
        name@ == "INBOX"@,
{
    "INBOX"
}

/// The part of a message that is fetched: the whole message.
pub fn fetch_items() -> (items: &'static str)
    ensures
        items@ == "RFC822"@,
{
    "RFC822"
}

/// The search for the messages whose subject holds `subject`: the word
/// `SUBJECT`, a space, and the subject between double quotes, as it stands.
pub fn search_query(subject: &str) -> (query: String)
    ensures
        query@ == "SUBJECT \""@ + subject@ + "\""@,
{
    let mut query = "SUBJECT \"".to_owned();
    query.append(subject);
    query.append("\"");
    query
}

/// The character of the decimal digit `d`.
pub open spec fn digit_char(d: nat) -> char {
    (48 + d) as char
}

/// `n` in decimal digits, without leading zeros.
pub open spec fn decimal(n: nat) -> Seq<char>
    decreases n,
{
    if n < 10 {
        seq![digit_char(n)]
    } else {
        decimal(n / 10).push(digit_char(n % 10))
    }
}

/// Adds the decimal digits of `n` to `out`.
fn push_decimal(out: &mut Vec<char>, n: u32)
    ensures
        final(out)@ == old(out)@ + decimal(n as nat),
    decreases n,
{
    if n >= 10 {
        push_decimal(out, n / 10);
    }
    let d: u8 = (n % 10) as u8;
    out.push((48 + d) as char);
    assert(out@ =~= old(out)@ + decimal(n as nat));
}

/// The sequence set that names the one message `id`: the identifier in
/// decimal digits.
pub fn sequence_set(id: u32) -> (set: String)
    ensures
        set@ == decimal(id as nat),
{
    let mut digits: Vec<char> = Vec::new();
    push_decimal(&mut digits, id);
    assert(digits@ =~= decimal(id as nat));
    from_chars(&digits)
}

/// The text that lossy decoding makes of a sequence of bytes.
pub uninterp spec fn lossy_text(bytes: Seq<u8>) -> Seq<char>;

/// Decodes bytes as UTF-8 text, putting the replacement character in the
/// place of what is not valid (`String::from_utf8_lossy`). The result
/// depends on the bytes alone; of bytes that are valid UTF-8 it is the text
/// they encode. What becomes of other bytes is not stated here.
#[verifier::external_body]
fn decode_lossy(bytes: &Vec<u8>) -> (text: String)
    ensures
        text@ == lossy_text(bytes@),
        valid_utf8(bytes@) ==> text@ == decode_utf8(bytes@),
{
    String::from_utf8_lossy(bytes).into_owned()
}

/// The text of each message of `raw` that has a body.
pub open spec fn decoded(raw: Seq<Option<Vec<u8>>>) -> Seq<Option<Seq<char>>> {
    raw.map_values(
        |item: Option<Vec<u8>>|
            match item {
                Some(bytes) => Some(lossy_text(bytes@)),
                None => None,
            },
    )
}

/// Turns the bodies that a fetch brought into text. A message without a body
/// stays without one; no body is refused, and one that is valid UTF-8 gives
/// the text it encodes.
pub fn decode_bodies(raw: &Vec<Option<Vec<u8>>>) -> (items: Vec<Option<String>>)
    ensures
        item_texts(items@) == decoded(raw@),
        forall|i: int|
            0 <= i < raw.len() && raw[i] is Some && valid_utf8(raw[i]->0@) ==> #[trigger] item_texts(
                items@,
            )[i] == Some(decode_utf8(raw[i]->0@)),
{
    let mut items: Vec<Option<String>> = Vec::new();
    let mut i: usize = 0;
    while i < raw.len()
        invariant
            i <= raw.len(),
            items.len() == i,
            item_texts(items@) == decoded(raw@).take(i as int),
            forall|k: int|
                0 <= k < i && raw[k] is Some && valid_utf8(raw[k]->0@) ==> #[trigger] item_texts(
                    items@,
                )[k] == Some(decode_utf8(raw[k]->0@)),
        decreases raw.len() - i,
    {
        let ghost before = items@;
        match &raw[i] {
            Some(bytes) => {
                items.push(Some(decode_lossy(bytes)));
            },
            None => {
                items.push(None);
            },
        }
        proof {
            assert(item_texts(items@) =~= item_texts(before).push(item_texts(items@)[i as int]));
            assert(decoded(raw@).take(i + 1) =~= decoded(raw@).take(i as int).push(
                decoded(raw@)[i as int],
            ));
        }
        i += 1;
    }
    assert(decoded(raw@).take(i as int) =~= decoded(raw@));
    items
}

} // verus!
