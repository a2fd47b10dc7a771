//! Reading the arguments of the operator's send commands.
use vstd::prelude::*;
use crate::can::{EXTENDED_ID_MAX, ExtendedId, Id, STANDARD_ID_MAX, StandardId};
use crate::error::Error;
use crate::grammar::text_views;
use crate::text::{chars_of, hex_number, parse_hex};

verus! {

/// Whether an identifier mode word selects the extended form (`true`, `1`),
/// the standard form (`false`, `0`), or neither.
pub open spec fn id_mode(t: Seq<char>) -> Option<bool> {
    if t == seq!['t', 'r', 'u', 'e'] || t == seq!['1'] {
        Some(true)
    } else if t == seq!['f', 'a', 'l', 's', 'e'] || t == seq!['0'] {
        Some(false)
    } else {
        None
    }
}

/// The address pair a send-ISO-TP command names: source and destination in
/// hexadecimal, in the form its mode word selects.
pub open spec fn isotp_pair(mode: Seq<char>, src: Seq<char>, dest: Seq<char>) -> Option<(Id, Id)> {
    match id_mode(mode) {
        None => None,
        Some(true) => match (hex_number(src, EXTENDED_ID_MAX as nat), hex_number(dest, EXTENDED_ID_MAX as nat)) {
            (Some(s), Some(d)) => Some(
                (Id::Extended(ExtendedId::from_raw(s as u32)), Id::Extended(ExtendedId::from_raw(d as u32))),
            ),
            _ => None,
        },
        Some(false) => match (hex_number(src, STANDARD_ID_MAX as nat), hex_number(dest, STANDARD_ID_MAX as nat)) {
            (Some(s), Some(d)) => Some(
                (Id::Standard(StandardId::from_raw(s as u16)), Id::Standard(StandardId::from_raw(d as u16))),
            ),
            _ => None,
        },
    }
}

/// The bytes that hexadecimal words spell, one byte a word.
pub open spec fn message_of(words: Seq<Seq<char>>) -> Option<Seq<u8>> {
    if forall|k: int| 0 <= k < words.len() ==> (#[trigger] hex_number(words[k], 255)) is Some {
        Some(Seq::new(words.len(), |k: int| hex_number(words[k], 255)->0 as u8))
    } else {
        None
    }
}

fn is_word(t: &Vec<char>, w: &Vec<char>) -> (r: bool)
    ensures
        r == (t@ == w@),
{
    crate::bindings::same_chars(t, w)
}

/// Reads the mode word and the two hexadecimal addresses of a send-ISO-TP
/// command. `Config` when the mode is unknown or an address does not parse
/// or does not fit its form.
pub fn isotp_addresses(mode: &str, src: &str, dest: &str) -> (r: Result<(Id, Id), Error>)
    ensures
        isotp_pair(mode@, src@, dest@) is None ==> r == Err::<(Id, Id), Error>(Error::Config),
        isotp_pair(mode@, src@, dest@) is Some ==> r == Ok::<(Id, Id), Error>(
            isotp_pair(mode@, src@, dest@)->0,
        ),
{
    let m = chars_of(mode);
    let t = vec!['t', 'r', 'u', 'e'];
    let one = vec!['1'];
    let f = vec!['f', 'a', 'l', 's', 'e'];
    let zero = vec!['0'];
    assert(t@ =~= seq!['t', 'r', 'u', 'e'] && one@ =~= seq!['1'] && f@ =~= seq![
        'f',
        'a',
        'l',
        's',
        'e',
    ] && zero@ =~= seq!['0']);
    let s = chars_of(src);
    let d = chars_of(dest);
    if is_word(&m, &t) || is_word(&m, &one) {
        let sv = match parse_hex(&s, EXTENDED_ID_MAX) {
            Some(v) => v,
            None => {
                return Err(Error::Config);
            },
        };
        let dv = match parse_hex(&d, EXTENDED_ID_MAX) {
            Some(v) => v,
            None => {
                return Err(Error::Config);
            },
        };
        Ok((Id::Extended(ExtendedId::new(sv).unwrap()), Id::Extended(ExtendedId::new(dv).unwrap())))
    } else if is_word(&m, &f) || is_word(&m, &zero) {
        let sv = match parse_hex(&s, STANDARD_ID_MAX as u32) {
            Some(v) => v,
            None => {
                return Err(Error::Config);
            },
        };
        let dv = match parse_hex(&d, STANDARD_ID_MAX as u32) {
            Some(v) => v,
            None => {
                return Err(Error::Config);
            },
        };
        Ok(
            (
                Id::Standard(StandardId::new(sv as u16).unwrap()),
                Id::Standard(StandardId::new(dv as u16).unwrap()),
            ),
        )
    } else {
        Err(Error::Config)
    }
}

/// Reads the identifier of a send command: hexadecimal, at most 29 bits.
pub fn raw_id(text: &str) -> (r: Result<u32, Error>)
    ensures
        hex_number(text@, EXTENDED_ID_MAX as nat) is None ==> r == Err::<u32, Error>(Error::Config),
        hex_number(text@, EXTENDED_ID_MAX as nat) is Some ==> r == Ok::<u32, Error>(
            hex_number(text@, EXTENDED_ID_MAX as nat)->0 as u32,
        ),
{
    match parse_hex(&chars_of(text), EXTENDED_ID_MAX) {
        Some(v) => Ok(v),
        None => Err(Error::Config),
    }
}

/// Reads the payload words of a send command, one hexadecimal byte each.
pub fn message_bytes(words: &Vec<String>) -> (r: Result<Vec<u8>, Error>)
    ensures
        message_of(text_views(words@)) is None ==> r == Err::<Vec<u8>, Error>(Error::Config),
        message_of(text_views(words@)) is Some ==> r is Ok && r->Ok_0@ == message_of(
            text_views(words@),
        )->0,
{
    let ghost wv = text_views(words@);
    let mut out: Vec<u8> = Vec::new();
    let mut k: usize = 0;
    while k < words.len()
        invariant
            wv == text_views(words@),
            wv.len() == words@.len(),
            0 <= k <= words@.len(),
            out@.len() == k,
            forall|j: int| 0 <= j < k ==> (#[trigger] hex_number(wv[j], 255)) is Some && out@[j]
                == hex_number(wv[j], 255)->0 as u8,
        decreases words@.len() - k,
    {
        assert(wv[k as int] == words@[k as int]@);
        match parse_hex(&chars_of(words[k].as_str()), 255) {
            Some(v) => out.push(v as u8),
            None => {
                return Err(Error::Config);
            },
        }
        k = k + 1;
    }
    assert(out@ =~= message_of(wv)->0);
    Ok(out)
}

} // verus!
