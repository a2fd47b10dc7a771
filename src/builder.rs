//! Building the request bytes of a step from its tokens.
//!
//! File contents and signatures come from outside: `external_requests` lists
//! what a step needs, in token order, and `build_request` takes the results in
//! the same order.
use vstd::prelude::*;
use crate::bindings::Bindings;
use crate::codec::push_range;
use crate::error::Error;
use crate::grammar::{RequestToken, RequestTokenView, ResponseTokenView, request_views};
use crate::matcher::{be16_at, match_all, match_prefix};
use crate::text::slice_of;

verus! {

/// Largest length that a two-byte length field holds.
pub const MAX_FIELD_LEN: usize = 0xFFFF;

/// Work that a step's request needs from outside, as a value.
pub enum ExternalOpView {
    ReadFile(Seq<char>),
    Sign(Seq<u8>, Seq<char>),
}

/// Work that a step's request needs from outside.
#[derive(Debug)]
pub enum ExternalOp {
    /// Read the bytes of the file at this path.
    ReadFile(Vec<char>),
    /// Sign these bytes with the private key at this path.
    Sign(Vec<u8>, Vec<char>),
}

impl View for ExternalOp {
    type V = ExternalOpView;

    open spec fn view(&self) -> ExternalOpView {
        match self {
            ExternalOp::ReadFile(p) => ExternalOpView::ReadFile(p@),
            ExternalOp::Sign(m, k) => ExternalOpView::Sign(m@, k@),
        }
    }
}

pub open spec fn op_views(ops: Seq<ExternalOp>) -> Seq<ExternalOpView> {
    ops.map_values(|o: ExternalOp| o@)
}

pub open spec fn byte_views(v: Seq<Vec<u8>>) -> Seq<Seq<u8>> {
    v.map_values(|x: Vec<u8>| x@)
}

/// What the tokens need from outside, in order: a file read for each file
/// inclusion, a signature of the bound bytes for each signed reference.
/// `Config` when a signed reference names an unbound variable.
pub open spec fn external_ops(
    tokens: Seq<RequestTokenView>,
    b: Map<Seq<char>, Seq<u8>>,
) -> Result<Seq<ExternalOpView>, Error>
    decreases tokens.len(),
{
    if tokens.len() == 0 {
        Ok(Seq::empty())
    } else {
        match external_ops(tokens.drop_last(), b) {
            Err(e) => Err(e),
            Ok(ops) => match tokens.last() {
                RequestTokenView::File(p) => Ok(ops.push(ExternalOpView::ReadFile(p))),
                RequestTokenView::Signed(name, key) => {
                    if b.contains_key(name) {
                        Ok(ops.push(ExternalOpView::Sign(b[name], key)))
                    } else {
                        Err(Error::Config)
                    }
                },
                _ => Ok(ops),
            },
        }
    }
}

/// The two-byte big-endian form of `n`.
pub open spec fn be16(n: nat) -> Seq<u8> {
    seq![(n / 256) as u8, (n % 256) as u8]
}

/// The builder's state: bytes so far, outside results used, and whether a
/// `LEN_NEXT` waits for the next signature.
pub struct BuildState {
    pub bytes: Seq<u8>,
    pub used: nat,
    pub len_next: bool,
}

/// One token applied to the builder's state.
pub open spec fn build_step(s: BuildState, t: RequestTokenView, results: Seq<Seq<u8>>) -> Result<
    BuildState,
    Error,
> {
    match t {
        RequestTokenView::Byte(b) => Ok(BuildState { bytes: s.bytes.push(b), ..s }),
        RequestTokenView::LenNext => Ok(BuildState { len_next: true, ..s }),
        RequestTokenView::File(_) => {
            if s.used >= results.len() {
                Err(Error::Config)
            } else {
                Ok(BuildState { bytes: s.bytes + results[s.used as int], used: s.used + 1, ..s })
            }
        },
        RequestTokenView::Signed(_, _) => {
            if s.used >= results.len() {
                Err(Error::Config)
            } else {
                let sig = results[s.used as int];
                if s.len_next {
                    if sig.len() + 2 > MAX_FIELD_LEN {
                        Err(Error::Framing)
                    } else {
                        Ok(
                            BuildState {
                                bytes: s.bytes + be16(sig.len() + 2) + be16(sig.len()) + sig,
                                used: s.used + 1,
                                len_next: false,
                            },
                        )
                    }
                } else {
                    if sig.len() > MAX_FIELD_LEN {
                        Err(Error::Framing)
                    } else {
                        Ok(
                            BuildState {
                                bytes: s.bytes + be16(sig.len()) + sig,
                                used: s.used + 1,
                                len_next: false,
                            },
                        )
                    }
                }
            }
        },
    }
}

/// The builder's state after the first `n` tokens.
pub open spec fn build_prefix(
    tokens: Seq<RequestTokenView>,
    results: Seq<Seq<u8>>,
    n: nat,
) -> Result<BuildState, Error>
    decreases n,
{
    if n == 0 {
        Ok(BuildState { bytes: Seq::empty(), used: 0, len_next: false })
    } else {
        match build_prefix(tokens, results, (n - 1) as nat) {
            Err(e) => Err(e),
            Ok(s) => build_step(s, tokens[n - 1], results),
        }
    }
}

/// The request bytes of `tokens` given the outside results, in order.
/// `Config` when the results do not match the outside work one to one;
/// `Framing` when a signature is too long for its length field.
pub open spec fn request_bytes(tokens: Seq<RequestTokenView>, results: Seq<Seq<u8>>) -> Result<
    Seq<u8>,
    Error,
> {
    match build_prefix(tokens, results, tokens.len()) {
        Err(e) => Err(e),
        Ok(s) => {
            if s.used != results.len() {
                Err(Error::Config)
            } else {
                Ok(s.bytes)
            }
        },
    }
}

/// Lists the outside work that `tokens` need, given the current bindings.
pub fn external_requests(tokens: &Vec<RequestToken>, bindings: &Bindings) -> (r: Result<
    Vec<ExternalOp>,
    Error,
>)
    ensures
        external_ops(request_views(tokens@), bindings.view()) is Err ==> r == Err::<
            Vec<ExternalOp>,
            Error,
        >(external_ops(request_views(tokens@), bindings.view())->Err_0),
        external_ops(request_views(tokens@), bindings.view()) is Ok ==> r is Ok && op_views(
            r->Ok_0@,
        ) == external_ops(request_views(tokens@), bindings.view())->Ok_0,
{
    let ghost tv = request_views(tokens@);
    let ghost b = bindings.view();
    let mut ops: Vec<ExternalOp> = Vec::new();
    let mut k: usize = 0;
    assert(tv.subrange(0, 0) =~= Seq::<RequestTokenView>::empty());
    assert(op_views(ops@) =~= Seq::<ExternalOpView>::empty());
    while k < tokens.len()
        invariant
            tv == request_views(tokens@),
            tv.len() == tokens@.len(),
            b == bindings.view(),
            0 <= k <= tokens@.len(),
            external_ops(tv.subrange(0, k as int), b) == Ok::<Seq<ExternalOpView>, Error>(
                op_views(ops@),
            ),
        decreases tokens@.len() - k,
    {
        let ghost pre = tv.subrange(0, k + 1 as int);
        assert(pre.drop_last() =~= tv.subrange(0, k as int));
        assert(pre.last() == tokens@[k as int]@);
        match &tokens[k] {
            RequestToken::File(path) => {
                let p = slice_of(path, 0, path.len());
                assert(p@ =~= path@);
                ops.push(ExternalOp::ReadFile(p));
            },
            RequestToken::Signed(name, key) => {
                match bindings.get_chars(name) {
                    Some(message) => {
                        let kp = slice_of(key, 0, key.len());
                        assert(kp@ =~= key@);
                        ops.push(ExternalOp::Sign(message, kp));
                    },
                    None => {
                        proof {
                            lemma_ops_error_stays(tv, b, (k + 1) as nat);
                        }
                        return Err(Error::Config);
                    },
                }
            },
            _ => {},
        }
        assert(op_views(ops@) =~= external_ops(pre, b)->Ok_0);
        k = k + 1;
    }
    assert(tv.subrange(0, k as int) =~= tv);
    Ok(ops)
}

/// An error in the outside work of a prefix is the error of the whole list.
proof fn lemma_ops_error_stays(tokens: Seq<RequestTokenView>, b: Map<Seq<char>, Seq<u8>>, n: nat)
    requires
        n <= tokens.len(),
        external_ops(tokens.subrange(0, n as int), b) is Err,
    ensures
        external_ops(tokens, b) == external_ops(tokens.subrange(0, n as int), b),
    decreases tokens.len() - n,
{
    if n < tokens.len() {
        let next = tokens.subrange(0, n + 1 as int);
        assert(next.drop_last() =~= tokens.subrange(0, n as int));
        lemma_ops_error_stays(tokens, b, n + 1);
    } else {
        assert(tokens.subrange(0, n as int) =~= tokens);
    }
}

/// Once building fails, later tokens keep the error.
proof fn lemma_build_error_stays(
    tokens: Seq<RequestTokenView>,
    results: Seq<Seq<u8>>,
    n: nat,
    m: nat,
)
    requires
        n <= m <= tokens.len(),
        build_prefix(tokens, results, n) is Err,
    ensures
        build_prefix(tokens, results, m) == build_prefix(tokens, results, n),
    decreases m - n,
{
    if m > n {
        lemma_build_error_stays(tokens, results, n, (m - 1) as nat);
    }
}

fn push_be16(v: &mut Vec<u8>, n: usize)
    requires
        n <= MAX_FIELD_LEN,
    ensures
        final(v)@ == old(v)@ + be16(n as nat),
{
    v.push((n / 256) as u8);
    v.push((n % 256) as u8);
    assert(final(v)@ =~= old(v)@ + be16(n as nat));
}

/// Builds the request bytes of `tokens`; `results` holds the outcome of each
/// item of `external_requests`, in the same order.
pub fn build_request(tokens: &Vec<RequestToken>, results: &Vec<Vec<u8>>) -> (r: Result<
    Vec<u8>,
    Error,
>)
    ensures
        request_bytes(request_views(tokens@), byte_views(results@)) is Err ==> r == Err::<
            Vec<u8>,
            Error,
        >(request_bytes(request_views(tokens@), byte_views(results@))->Err_0),
        request_bytes(request_views(tokens@), byte_views(results@)) is Ok ==> r is Ok && r->Ok_0@
            == request_bytes(request_views(tokens@), byte_views(results@))->Ok_0,
{
    let ghost tv = request_views(tokens@);
    let ghost rv = byte_views(results@);
    let mut bytes: Vec<u8> = Vec::new();
    let mut used: usize = 0;
    let mut len_next = false;
    let mut k: usize = 0;
    while k < tokens.len()
        invariant
            tv == request_views(tokens@),
            tv.len() == tokens@.len(),
            rv == byte_views(results@),
            rv.len() == results@.len(),
            0 <= k <= tokens@.len(),
            used <= results@.len(),
            build_prefix(tv, rv, k as nat) == Ok::<BuildState, Error>(
                BuildState { bytes: bytes@, used: used as nat, len_next },
            ),
        decreases tokens@.len() - k,
    {
        assert(tv[k as int] == tokens@[k as int]@);
        match &tokens[k] {
            RequestToken::Byte(b) => {
                bytes.push(*b);
            },
            RequestToken::LenNext => {
                len_next = true;
            },
            RequestToken::File(_) => {
                if used >= results.len() {
                    proof {
                        lemma_build_error_stays(tv, rv, (k + 1) as nat, tv.len());
                    }
                    return Err(Error::Config);
                }
                assert(rv[used as int] == results@[used as int]@);
                let content = &results[used];
                push_range(&mut bytes, content.as_slice(), 0, content.len());
                assert(content@.subrange(0, content@.len() as int) =~= content@);
                used = used + 1;
            },
            RequestToken::Signed(_, _) => {
                if used >= results.len() {
                    proof {
                        lemma_build_error_stays(tv, rv, (k + 1) as nat, tv.len());
                    }
                    return Err(Error::Config);
                }
                assert(rv[used as int] == results@[used as int]@);
                let sig = &results[used];
                let n = sig.len();
                if len_next {
                    if n > MAX_FIELD_LEN - 2 {
                        proof {
                            lemma_build_error_stays(tv, rv, (k + 1) as nat, tv.len());
                        }
                        return Err(Error::Framing);
                    }
                    push_be16(&mut bytes, n + 2);
                } else if n > MAX_FIELD_LEN {
                    proof {
                        lemma_build_error_stays(tv, rv, (k + 1) as nat, tv.len());
                    }
                    return Err(Error::Framing);
                }
                push_be16(&mut bytes, n);
                push_range(&mut bytes, sig.as_slice(), 0, n);
                assert(sig@.subrange(0, n as int) =~= sig@);
                used = used + 1;
                len_next = false;
            },
        }
        k = k + 1;
    }
    if used != results.len() {
        return Err(Error::Config);
    }
    Ok(bytes)
}

/// Later tokens that capture other names leave the binding of `name` alone.
proof fn lemma_binding_kept(
    dg: Seq<u8>,
    resp: Seq<ResponseTokenView>,
    b: Map<Seq<char>, Seq<u8>>,
    name: Seq<char>,
    k: nat,
    n: nat,
)
    requires
        k < n <= resp.len(),
        match_prefix(dg, resp, b, n).status is Running,
        match_prefix(dg, resp, b, k + 1).bindings.contains_key(name),
        forall|j: int| k < j < resp.len() ==> resp[j] != ResponseTokenView::Capture(name),
    ensures
        match_prefix(dg, resp, b, n).bindings.contains_key(name),
        match_prefix(dg, resp, b, n).bindings[name] == match_prefix(dg, resp, b, k + 1).bindings[name],
    decreases n - k,
{
    if n > k + 1 {
        let m = (n - 1) as nat;
        if !(match_prefix(dg, resp, b, m).status is Running) {
            assert(!(match_prefix(dg, resp, b, n).status is Running));
        }
        lemma_binding_kept(dg, resp, b, name, k, m);
    }
}

/// A value captured by `LEN(name)` is what a later `LEN(RES(name, key))` signs:
/// when the `k`-th response token captures `name`, no later one does, and the
/// whole response matches, the request asks for a signature of exactly the
/// `L` bytes that followed the length field `L` at the capture's cursor.
pub proof fn lemma_capture_feeds_signing(
    dg: Seq<u8>,
    resp: Seq<ResponseTokenView>,
    b: Map<Seq<char>, Seq<u8>>,
    name: Seq<char>,
    key: Seq<char>,
    k: nat,
)
    requires
        k < resp.len(),
        resp[k as int] == ResponseTokenView::Capture(name),
        forall|j: int| k < j < resp.len() ==> resp[j] != ResponseTokenView::Capture(name),
        match_all(dg, resp, b).status is Running,
    ensures
        ({
            let c = match_prefix(dg, resp, b, k).cursor;
            let captured = dg.subrange(c + 2, c + 2 + be16_at(dg, c));
            &&& match_all(dg, resp, b).bindings[name] == captured
            &&& external_ops(
                seq![RequestTokenView::Signed(name, key)],
                match_all(dg, resp, b).bindings,
            ) == Ok::<Seq<ExternalOpView>, Error>(seq![ExternalOpView::Sign(captured, key)])
        }),
{
    let c = match_prefix(dg, resp, b, k).cursor;
    crate::matcher::lemma_running_prefix(dg, resp, b, k + 1, resp.len());
    let captured = dg.subrange(c + 2, c + 2 + be16_at(dg, c));
    assert(match_prefix(dg, resp, b, k + 1) == crate::matcher::match_step(
        dg,
        match_prefix(dg, resp, b, k),
        resp[k as int],
    ));
    assert(match_prefix(dg, resp, b, k + 1).bindings[name] == captured);
    lemma_binding_kept(dg, resp, b, name, k, resp.len());
    let bs = match_all(dg, resp, b).bindings;
    let toks = seq![RequestTokenView::Signed(name, key)];
    assert(toks.drop_last() =~= Seq::<RequestTokenView>::empty());
    assert(external_ops(toks.drop_last(), bs) == Ok::<Seq<ExternalOpView>, Error>(Seq::empty()));
    assert(Seq::<ExternalOpView>::empty().push(ExternalOpView::Sign(captured, key)) =~= seq![
        ExternalOpView::Sign(captured, key),
    ]);
}

/// A lone signed reference sends the signature behind its two-byte
/// big-endian length; a signature too long for that field is refused.
pub proof fn lemma_signed_reference_bytes(name: Seq<char>, key: Seq<char>, sig: Seq<u8>)
    ensures
        sig.len() <= MAX_FIELD_LEN ==> request_bytes(
            seq![RequestTokenView::Signed(name, key)],
            seq![sig],
        ) == Ok::<Seq<u8>, Error>(be16(sig.len()) + sig),
        sig.len() > MAX_FIELD_LEN ==> request_bytes(
            seq![RequestTokenView::Signed(name, key)],
            seq![sig],
        ) == Err::<Seq<u8>, Error>(Error::Framing),
{
    let toks = seq![RequestTokenView::Signed(name, key)];
    let results = seq![sig];
    assert(build_prefix(toks, results, 0) == Ok::<BuildState, Error>(
        BuildState { bytes: Seq::empty(), used: 0, len_next: false },
    ));
    if sig.len() <= MAX_FIELD_LEN {
        assert(Seq::<u8>::empty() + be16(sig.len()) + sig =~= be16(sig.len()) + sig);
    }
}

} // verus!
