//! The token grammar of test steps.
//!
//! Request tokens: a literal byte `0xNN`, a file inclusion `FILE(path)`, a
//! signed reference `LEN(RES(name,keypath))` and the marker `LEN_NEXT`.
//! Response tokens: a literal byte, an alternation `0xA|0xB|...`, a range
//! `RANGE(0xLO,0xHI)` and a length-prefixed capture `LEN(name)`.
//! Spaces inside a token are ignored.
use vstd::prelude::*;
use crate::error::Error;
use crate::text::{
    chars_of, enclosed, has_prefix, hex_number, inner, parse_hex, slice_of, split_chars, split_on,
    starts_with, strip_spaces, take_inner, without_spaces,
};

verus! {

/// A request token as a value.
pub enum RequestTokenView {
    Byte(u8),
    File(Seq<char>),
    Signed(Seq<char>, Seq<char>),
    LenNext,
}

/// A parsed request token.
#[derive(Debug)]
pub enum RequestToken {
    /// Appends one byte.
    Byte(u8),
    /// Appends the contents of the file at this path.
    File(Vec<char>),
    /// Appends a length-prefixed signature of the named variable, made with
    /// the key at the given path.
    Signed(Vec<char>, Vec<char>),
    /// Prefixes the next signature with the length of its framed form.
    LenNext,
}

impl View for RequestToken {
    type V = RequestTokenView;

    open spec fn view(&self) -> RequestTokenView {
        match self {
            RequestToken::Byte(b) => RequestTokenView::Byte(*b),
            RequestToken::File(p) => RequestTokenView::File(p@),
            RequestToken::Signed(n, k) => RequestTokenView::Signed(n@, k@),
            RequestToken::LenNext => RequestTokenView::LenNext,
        }
    }
}

/// A response token as a value.
pub enum ResponseTokenView {
    Accept(Seq<u8>),
    Capture(Seq<char>),
}

/// A parsed response token.
#[derive(Debug)]
pub enum ResponseToken {
    /// The byte at the cursor must be one of these.
    Accept(Vec<u8>),
    /// A two-byte big-endian length and that many bytes, bound to this name.
    Capture(Vec<char>),
}

impl View for ResponseToken {
    type V = ResponseTokenView;

    open spec fn view(&self) -> ResponseTokenView {
        match self {
            ResponseToken::Accept(v) => ResponseTokenView::Accept(v@),
            ResponseToken::Capture(n) => ResponseTokenView::Capture(n@),
        }
    }
}

pub open spec fn request_views(t: Seq<RequestToken>) -> Seq<RequestTokenView> {
    t.map_values(|x: RequestToken| x@)
}

pub open spec fn response_views(t: Seq<ResponseToken>) -> Seq<ResponseTokenView> {
    t.map_values(|x: ResponseToken| x@)
}

pub open spec fn text_views(t: Seq<String>) -> Seq<Seq<char>> {
    t.map_values(|x: String| x@)
}

pub open spec fn hex_open() -> Seq<char> {
    seq!['0', 'x']
}

pub open spec fn file_open() -> Seq<char> {
    seq!['F', 'I', 'L', 'E', '(']
}

pub open spec fn signed_open() -> Seq<char> {
    seq!['L', 'E', 'N', '(', 'R', 'E', 'S', '(']
}

pub open spec fn len_next_word() -> Seq<char> {
    seq!['L', 'E', 'N', '_', 'N', 'E', 'X', 'T']
}

pub open spec fn capture_open() -> Seq<char> {
    seq!['L', 'E', 'N', '(']
}

pub open spec fn range_open() -> Seq<char> {
    seq!['R', 'A', 'N', 'G', 'E', '(']
}

pub open spec fn close_one() -> Seq<char> {
    seq![')']
}

pub open spec fn close_two() -> Seq<char> {
    seq![')', ')']
}

/// A literal byte `0xNN`.
pub open spec fn byte_literal(t: Seq<char>) -> Option<u8> {
    if has_prefix(t, hex_open()) {
        match hex_number(t.subrange(2, t.len() as int), 255) {
            Some(v) => Some(v as u8),
            None => None,
        }
    } else {
        None
    }
}

/// The bytes `lo..=hi`, in order.
pub open spec fn byte_range(lo: u8, hi: u8) -> Seq<u8> {
    if lo <= hi {
        Seq::new((hi - lo + 1) as nat, |i: int| (lo + i) as u8)
    } else {
        Seq::empty()
    }
}

/// The request token that `text` spells, spaces ignored.
pub open spec fn request_token(text: Seq<char>) -> Option<RequestTokenView> {
    let t = without_spaces(text);
    if has_prefix(t, hex_open()) {
        match byte_literal(t) {
            Some(b) => Some(RequestTokenView::Byte(b)),
            None => None,
        }
    } else if has_prefix(t, file_open()) {
        if enclosed(t, file_open(), close_one()) {
            Some(RequestTokenView::File(inner(t, file_open(), close_one())))
        } else {
            None
        }
    } else if has_prefix(t, signed_open()) {
        let parts = split_on(inner(t, signed_open(), close_two()), ',');
        if enclosed(t, signed_open(), close_two()) && parts.len() == 2 {
            Some(RequestTokenView::Signed(parts[0], parts[1]))
        } else {
            None
        }
    } else if has_prefix(t, len_next_word()) {
        Some(RequestTokenView::LenNext)
    } else {
        None
    }
}

/// The response token that `text` spells, spaces ignored.
pub open spec fn response_token(text: Seq<char>) -> Option<ResponseTokenView> {
    let t = without_spaces(text);
    if t.contains('|') {
        let parts = split_on(t, '|');
        if forall|k: int| 0 <= k < parts.len() ==> (#[trigger] byte_literal(parts[k])) is Some {
            Some(
                ResponseTokenView::Accept(
                    Seq::new(parts.len(), |k: int| byte_literal(parts[k])->0),
                ),
            )
        } else {
            None
        }
    } else if has_prefix(t, hex_open()) {
        match byte_literal(t) {
            Some(b) => Some(ResponseTokenView::Accept(seq![b])),
            None => None,
        }
    } else if has_prefix(t, capture_open()) {
        if enclosed(t, capture_open(), close_one()) {
            Some(ResponseTokenView::Capture(inner(t, capture_open(), close_one())))
        } else {
            None
        }
    } else if has_prefix(t, range_open()) {
        let parts = split_on(inner(t, range_open(), close_one()), ',');
        if enclosed(t, range_open(), close_one()) && parts.len() == 2 && byte_literal(
            parts[0],
        ) is Some && byte_literal(parts[1]) is Some {
            Some(
                ResponseTokenView::Accept(
                    byte_range(byte_literal(parts[0])->0, byte_literal(parts[1])->0),
                ),
            )
        } else {
            None
        }
    } else {
        None
    }
}

/// The request tokens of a step, or `None` when one of them does not parse.
pub open spec fn request_tokens(texts: Seq<Seq<char>>) -> Option<Seq<RequestTokenView>> {
    if forall|k: int| 0 <= k < texts.len() ==> (#[trigger] request_token(texts[k])) is Some {
        Some(Seq::new(texts.len(), |k: int| request_token(texts[k])->0))
    } else {
        None
    }
}

/// The response tokens of a step, or `None` when one of them does not parse.
pub open spec fn response_tokens(texts: Seq<Seq<char>>) -> Option<Seq<ResponseTokenView>> {
    if forall|k: int| 0 <= k < texts.len() ==> (#[trigger] response_token(texts[k])) is Some {
        Some(Seq::new(texts.len(), |k: int| response_token(texts[k])->0))
    } else {
        None
    }
}

fn hex_open_chars() -> (r: Vec<char>)
    ensures
        r@ == hex_open(),
{
    let r = vec!['0', 'x'];
    assert(r@ =~= hex_open());
    r
}

fn file_open_chars() -> (r: Vec<char>)
    ensures
        r@ == file_open(),
{
    let r = vec!['F', 'I', 'L', 'E', '('];
    assert(r@ =~= file_open());
    r
}

fn signed_open_chars() -> (r: Vec<char>)
    ensures
        r@ == signed_open(),
{
    let r = vec!['L', 'E', 'N', '(', 'R', 'E', 'S', '('];
    assert(r@ =~= signed_open());
    r
}

fn len_next_chars() -> (r: Vec<char>)
    ensures
        r@ == len_next_word(),
{
    let r = vec!['L', 'E', 'N', '_', 'N', 'E', 'X', 'T'];
    assert(r@ =~= len_next_word());
    r
}

fn capture_open_chars() -> (r: Vec<char>)
    ensures
        r@ == capture_open(),
{
    let r = vec!['L', 'E', 'N', '('];
    assert(r@ =~= capture_open());
    r
}

fn range_open_chars() -> (r: Vec<char>)
    ensures
        r@ == range_open(),
{
    let r = vec!['R', 'A', 'N', 'G', 'E', '('];
    assert(r@ =~= range_open());
    r
}

fn close_one_chars() -> (r: Vec<char>)
    ensures
        r@ == close_one(),
{
    let r = vec![')'];
    assert(r@ =~= close_one());
    r
}

fn close_two_chars() -> (r: Vec<char>)
    ensures
        r@ == close_two(),
{
    let r = vec![')', ')'];
    assert(r@ =~= close_two());
    r
}

/// Reads a literal byte `0xNN` from space-free text.
pub fn parse_byte_literal(t: &Vec<char>) -> (r: Option<u8>)
    ensures
        r == byte_literal(t@),
{
    if !starts_with(t, &hex_open_chars()) {
        return None;
    }
    let digits = slice_of(t, 2, t.len());
    match parse_hex(&digits, 255) {
        Some(v) => Some(v as u8),
        None => None,
    }
}

fn contains_char(t: &Vec<char>, c: char) -> (r: bool)
    ensures
        r == t@.contains(c),
{
    let mut i: usize = 0;
    while i < t.len()
        invariant
            0 <= i <= t@.len(),
            forall|j: int| 0 <= j < i ==> t@[j] != c,
        decreases t@.len() - i,
    {
        if t[i] == c {
            return true;
        }
        i = i + 1;
    }
    false
}

/// Parses one request token.
pub fn parse_request_token(text: &str) -> (r: Result<RequestToken, Error>)
    ensures
        request_token(text@) is None ==> r == Err::<RequestToken, Error>(Error::Grammar),
        request_token(text@) is Some ==> r is Ok && r->Ok_0@ == request_token(text@)->0,
{
    let t = strip_spaces(&chars_of(text));
    if starts_with(&t, &hex_open_chars()) {
        match parse_byte_literal(&t) {
            Some(b) => Ok(RequestToken::Byte(b)),
            None => Err(Error::Grammar),
        }
    } else if starts_with(&t, &file_open_chars()) {
        match take_inner(&t, &file_open_chars(), &close_one_chars()) {
            Some(path) => Ok(RequestToken::File(path)),
            None => Err(Error::Grammar),
        }
    } else if starts_with(&t, &signed_open_chars()) {
        match take_inner(&t, &signed_open_chars(), &close_two_chars()) {
            Some(inside) => {
                let mut parts = split_chars(&inside, ',');
                if parts.len() == 2 {
                    let key = parts.pop().unwrap();
                    let name = parts.pop().unwrap();
                    Ok(RequestToken::Signed(name, key))
                } else {
                    Err(Error::Grammar)
                }
            },
            None => Err(Error::Grammar),
        }
    } else if starts_with(&t, &len_next_chars()) {
        Ok(RequestToken::LenNext)
    } else {
        Err(Error::Grammar)
    }
}

/// Parses one response token.
pub fn parse_response_token(text: &str) -> (r: Result<ResponseToken, Error>)
    ensures
        response_token(text@) is None ==> r == Err::<ResponseToken, Error>(Error::Grammar),
        response_token(text@) is Some ==> r is Ok && r->Ok_0@ == response_token(text@)->0,
{
    let t = strip_spaces(&chars_of(text));
    if contains_char(&t, '|') {
        let parts = split_chars(&t, '|');
        let mut values: Vec<u8> = Vec::new();
        let mut k: usize = 0;
        while k < parts.len()
            invariant
                t@ == without_spaces(text@),
                t@.contains('|'),
                parts@.len() == split_on(t@, '|').len(),
                forall|j: int| 0 <= j < parts@.len() ==> (#[trigger] parts@[j])@ == split_on(t@, '|')[j],
                0 <= k <= parts@.len(),
                values@.len() == k,
                forall|j: int| 0 <= j < k ==> (#[trigger] byte_literal(split_on(t@, '|')[j])) is Some
                    && values@[j] == byte_literal(split_on(t@, '|')[j])->0,
            decreases parts@.len() - k,
        {
            match parse_byte_literal(&parts[k]) {
                Some(b) => values.push(b),
                None => {
                    assert(byte_literal(split_on(t@, '|')[k as int]) is None);
                    return Err(Error::Grammar);
                },
            }
            k = k + 1;
        }
        let ghost parts_v = split_on(t@, '|');
        assert(values@ =~= Seq::new(parts_v.len(), |j: int| byte_literal(parts_v[j])->0));
        Ok(ResponseToken::Accept(values))
    } else if starts_with(&t, &hex_open_chars()) {
        match parse_byte_literal(&t) {
            Some(b) => {
                let v = vec![b];
                assert(v@ =~= seq![b]);
                Ok(ResponseToken::Accept(v))
            },
            None => Err(Error::Grammar),
        }
    } else if starts_with(&t, &capture_open_chars()) {
        match take_inner(&t, &capture_open_chars(), &close_one_chars()) {
            Some(name) => Ok(ResponseToken::Capture(name)),
            None => Err(Error::Grammar),
        }
    } else if starts_with(&t, &range_open_chars()) {
        match take_inner(&t, &range_open_chars(), &close_one_chars()) {
            Some(inside) => {
                let parts = split_chars(&inside, ',');
                assert(parts@.len() == 2 ==> parts@[0]@ == split_on(inside@, ',')[0] && parts@[1]@
                    == split_on(inside@, ',')[1]);
                if parts.len() != 2 {
                    return Err(Error::Grammar);
                }
                let lo = match parse_byte_literal(&parts[0]) {
                    Some(b) => b,
                    None => {
                        return Err(Error::Grammar);
                    },
                };
                let hi = match parse_byte_literal(&parts[1]) {
                    Some(b) => b,
                    None => {
                        return Err(Error::Grammar);
                    },
                };
                Ok(ResponseToken::Accept(byte_range_vec(lo, hi)))
            },
            None => Err(Error::Grammar),
        }
    } else {
        Err(Error::Grammar)
    }
}

fn byte_range_vec(lo: u8, hi: u8) -> (r: Vec<u8>)
    ensures
        r@ == byte_range(lo, hi),
{
    let mut out: Vec<u8> = Vec::new();
    let mut v: u16 = lo as u16;
    while v <= hi as u16
        invariant
            lo <= v <= 256,
            lo <= hi ==> v <= hi + 1,
            lo > hi ==> v == lo,
            out@ == Seq::new((v - lo) as nat, |i: int| (lo + i) as u8),
        decreases 256 - v,
    {
        out.push(v as u8);
        v = v + 1;
        assert(out@ =~= Seq::new((v - lo) as nat, |i: int| (lo + i) as u8));
    }
    assert(out@ =~= byte_range(lo, hi));
    out
}

/// Parses the request tokens of a step.
pub fn parse_request_tokens(texts: &Vec<String>) -> (r: Result<Vec<RequestToken>, Error>)
    ensures
        request_tokens(text_views(texts@)) is None ==> r == Err::<Vec<RequestToken>, Error>(
            Error::Grammar,
        ),
        request_tokens(text_views(texts@)) is Some ==> r is Ok && request_views(r->Ok_0@)
            == request_tokens(text_views(texts@))->0,
{
    let ghost tv = text_views(texts@);
    let mut out: Vec<RequestToken> = Vec::new();
    let mut k: usize = 0;
    while k < texts.len()
        invariant
            tv == text_views(texts@),
            0 <= k <= texts@.len(),
            out@.len() == k,
            forall|j: int| 0 <= j < k ==> (#[trigger] request_token(tv[j])) is Some
                && out@[j]@ == request_token(tv[j])->0,
        decreases texts@.len() - k,
    {
        match parse_request_token(texts[k].as_str()) {
            Ok(t) => out.push(t),
            Err(e) => {
                assert(request_token(tv[k as int]) is None);
                return Err(e);
            },
        }
        k = k + 1;
    }
    assert(request_views(out@) =~= request_tokens(tv)->0);
    Ok(out)
}

/// Parses the response tokens of a step.
pub fn parse_response_tokens(texts: &Vec<String>) -> (r: Result<Vec<ResponseToken>, Error>)
    ensures
        response_tokens(text_views(texts@)) is None ==> r == Err::<Vec<ResponseToken>, Error>(
            Error::Grammar,
        ),
        response_tokens(text_views(texts@)) is Some ==> r is Ok && response_views(r->Ok_0@)
            == response_tokens(text_views(texts@))->0,
{
    let ghost tv = text_views(texts@);
    let mut out: Vec<ResponseToken> = Vec::new();
    let mut k: usize = 0;
    while k < texts.len()
        invariant
            tv == text_views(texts@),
            0 <= k <= texts@.len(),
            out@.len() == k,
            forall|j: int| 0 <= j < k ==> (#[trigger] response_token(tv[j])) is Some
                && out@[j]@ == response_token(tv[j])->0,
        decreases texts@.len() - k,
    {
        match parse_response_token(texts[k].as_str()) {
            Ok(t) => out.push(t),
            Err(e) => {
                assert(response_token(tv[k as int]) is None);
                return Err(e);
            },
        }
        k = k + 1;
    }
    assert(response_views(out@) =~= response_tokens(tv)->0);
    Ok(out)
}

} // verus!
