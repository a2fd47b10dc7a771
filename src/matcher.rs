//! Matching a received datagram against the response tokens of a step.
use vstd::prelude::*;
use crate::bindings::Bindings;
use crate::error::Error;
use crate::grammar::{ResponseToken, ResponseTokenView, response_views};
use crate::codec::push_range;
use crate::text::slice_of;

verus! {

/// First byte of a negative response.
pub const NEGATIVE_RESPONSE: u8 = 0x7F;

/// Negative response code that asks to wait for the real answer.
pub const RESPONSE_PENDING: u8 = 0x78;

/// Whether a datagram is a "response pending" negative response, which the
/// matcher never sees: the runner drops it and waits for the next one.
pub open spec fn pending(dg: Seq<u8>) -> bool {
    dg.len() >= 3 && dg[0] == NEGATIVE_RESPONSE && dg[2] == RESPONSE_PENDING
}

/// How far matching has got.
pub enum MatchStatus {
    /// Every token so far was satisfied.
    Running,
    /// A byte was not among the acceptable values.
    Mismatch,
    /// The datagram ended before the tokens did.
    Malformed,
}

/// The matcher's state: cursor into the datagram, bindings, status.
pub struct MatchState {
    pub cursor: int,
    pub bindings: Map<Seq<char>, Seq<u8>>,
    pub status: MatchStatus,
}

/// The two-byte big-endian number at `i`.
pub open spec fn be16_at(dg: Seq<u8>, i: int) -> nat {
    (dg[i] * 256 + dg[i + 1]) as nat
}

/// One token applied to the state. Once matching has stopped, nothing changes.
pub open spec fn match_step(dg: Seq<u8>, s: MatchState, t: ResponseTokenView) -> MatchState {
    if !(s.status is Running) {
        s
    } else {
        match t {
            ResponseTokenView::Accept(values) => {
                if s.cursor >= dg.len() {
                    MatchState { status: MatchStatus::Malformed, ..s }
                } else if values.contains(dg[s.cursor]) {
                    MatchState { cursor: s.cursor + 1, ..s }
                } else {
                    MatchState { status: MatchStatus::Mismatch, ..s }
                }
            },
            ResponseTokenView::Capture(name) => {
                if s.cursor + 2 > dg.len() || s.cursor + 2 + be16_at(dg, s.cursor) > dg.len() {
                    MatchState { status: MatchStatus::Malformed, ..s }
                } else {
                    let end = s.cursor + 2 + be16_at(dg, s.cursor);
                    MatchState {
                        cursor: end,
                        bindings: s.bindings.insert(name, dg.subrange(s.cursor + 2, end)),
                        status: MatchStatus::Running,
                    }
                }
            },
        }
    }
}

/// The state after the first `n` tokens.
pub open spec fn match_prefix(
    dg: Seq<u8>,
    tokens: Seq<ResponseTokenView>,
    b: Map<Seq<char>, Seq<u8>>,
    n: nat,
) -> MatchState
    decreases n,
{
    if n == 0 {
        MatchState { cursor: 0, bindings: b, status: MatchStatus::Running }
    } else {
        match_step(dg, match_prefix(dg, tokens, b, (n - 1) as nat), tokens[n - 1])
    }
}

/// The state after all tokens.
pub open spec fn match_all(
    dg: Seq<u8>,
    tokens: Seq<ResponseTokenView>,
    b: Map<Seq<char>, Seq<u8>>,
) -> MatchState {
    match_prefix(dg, tokens, b, tokens.len())
}

/// The verdict of a final state: a match, a mismatch, or a malformed response.
pub open spec fn verdict(s: MatchState) -> Result<bool, Error> {
    match s.status {
        MatchStatus::Running => Ok(true),
        MatchStatus::Mismatch => Ok(false),
        MatchStatus::Malformed => Err(Error::Protocol),
    }
}

pub fn is_response_pending(dg: &[u8]) -> (r: bool)
    ensures
        r == pending(dg@),
{
    dg.len() >= 3 && dg[0] == NEGATIVE_RESPONSE && dg[2] == RESPONSE_PENDING
}

fn accepts(values: &Vec<u8>, b: u8) -> (r: bool)
    ensures
        r == values@.contains(b),
{
    let mut i: usize = 0;
    while i < values.len()
        invariant
            0 <= i <= values@.len(),
            forall|j: int| 0 <= j < i ==> values@[j] != b,
        decreases values@.len() - i,
    {
        if values[i] == b {
            return true;
        }
        i = i + 1;
    }
    false
}

/// Matches `datagram` against `tokens` left to right, binding captures as it
/// meets them. `Ok(true)` when every token is satisfied, `Ok(false)` at the
/// first byte that is not acceptable (later tokens are not looked at), and
/// `Err(Protocol)` when the datagram ends too soon. Bindings made before the
/// matcher stopped are kept.
pub fn match_response(datagram: &[u8], tokens: &Vec<ResponseToken>, bindings: &mut Bindings) -> (r:
    Result<bool, Error>)
    ensures
        final(bindings).view() == match_all(
            datagram@,
            response_views(tokens@),
            old(bindings).view(),
        ).bindings,
        r == verdict(match_all(datagram@, response_views(tokens@), old(bindings).view())),
{
    let ghost dg = datagram@;
    let ghost tv = response_views(tokens@);
    let ghost b0 = old(bindings).view();
    let mut cursor: usize = 0;
    let mut k: usize = 0;
    while k < tokens.len()
        invariant
            dg == datagram@,
            tv == response_views(tokens@),
            tv.len() == tokens@.len(),
            b0 == old(bindings).view(),
            0 <= k <= tokens@.len(),
            match_prefix(dg, tv, b0, k as nat).status is Running,
            match_prefix(dg, tv, b0, k as nat).cursor == cursor,
            match_prefix(dg, tv, b0, k as nat).bindings == bindings.view(),
            cursor <= dg.len(),
        decreases tokens@.len() - k,
    {
        assert(tv[k as int] == tokens@[k as int]@);
        assert(match_prefix(dg, tv, b0, (k + 1) as nat) == match_step(
            dg,
            match_prefix(dg, tv, b0, k as nat),
            tv[k as int],
        ));
        match &tokens[k] {
            ResponseToken::Accept(values) => {
                if cursor >= datagram.len() {
                    proof {
                        assert(match_prefix(dg, tv, b0, (k + 1) as nat).status is Malformed);
                        lemma_stopped_stays(dg, tv, b0, (k + 1) as nat, tv.len());
                        assert(match_all(dg, tv, b0).bindings == bindings.view());
                    }
                    return Err(Error::Protocol);
                }
                if !accepts(values, datagram[cursor]) {
                    proof {
                        assert(match_prefix(dg, tv, b0, (k + 1) as nat).status is Mismatch);
                        lemma_stopped_stays(dg, tv, b0, (k + 1) as nat, tv.len());
                        assert(match_all(dg, tv, b0).bindings == bindings.view());
                    }
                    return Ok(false);
                }
                cursor = cursor + 1;
            },
            ResponseToken::Capture(name) => {
                if datagram.len() - cursor < 2 {
                    proof {
                        assert(match_prefix(dg, tv, b0, (k + 1) as nat).status is Malformed);
                        lemma_stopped_stays(dg, tv, b0, (k + 1) as nat, tv.len());
                        assert(match_all(dg, tv, b0).bindings == bindings.view());
                    }
                    return Err(Error::Protocol);
                }
                let len = datagram[cursor] as usize * 256 + datagram[cursor + 1] as usize;
                if datagram.len() - cursor - 2 < len {
                    proof {
                        assert(match_prefix(dg, tv, b0, (k + 1) as nat).status is Malformed);
                        lemma_stopped_stays(dg, tv, b0, (k + 1) as nat, tv.len());
                        assert(match_all(dg, tv, b0).bindings == bindings.view());
                    }
                    return Err(Error::Protocol);
                }
                let end = cursor + 2 + len;
                let mut captured: Vec<u8> = Vec::new();
                push_range(&mut captured, datagram, cursor + 2, end);
                assert(captured@ =~= dg.subrange(cursor + 2, end as int));
                let owned = slice_of(name, 0, name.len());
                assert(owned@ =~= name@);
                bindings.insert_chars(owned, captured);
                cursor = end;
            },
        }
        k = k + 1;
    }
    assert(tv.len() == k);
    Ok(true)
}

/// Once matching stops, later tokens change nothing.
proof fn lemma_stopped_stays(
    dg: Seq<u8>,
    tokens: Seq<ResponseTokenView>,
    b: Map<Seq<char>, Seq<u8>>,
    n: nat,
    m: nat,
)
    requires
        n <= m <= tokens.len(),
        !(match_prefix(dg, tokens, b, n).status is Running),
    ensures
        match_prefix(dg, tokens, b, m) == match_prefix(dg, tokens, b, n),
    decreases m - n,
{
    if m > n {
        lemma_stopped_stays(dg, tokens, b, n, (m - 1) as nat);
    }
}

/// A stopped match that did not run out of bytes stopped on a byte of the
/// datagram.
proof fn lemma_mismatch_in_range(
    dg: Seq<u8>,
    tokens: Seq<ResponseTokenView>,
    b: Map<Seq<char>, Seq<u8>>,
    n: nat,
)
    requires
        n <= tokens.len(),
    ensures
        match_prefix(dg, tokens, b, n).status is Mismatch ==> match_prefix(dg, tokens, b, n).cursor
            < dg.len(),
        match_prefix(dg, tokens, b, n).cursor >= 0,
    decreases n,
{
    if n > 0 {
        lemma_mismatch_in_range(dg, tokens, b, (n - 1) as nat);
    }
}

/// Matching `other` takes the same steps as matching `dg` while the cursor
/// stays within the bytes the two share.
proof fn lemma_same_steps(
    dg: Seq<u8>,
    other: Seq<u8>,
    tokens: Seq<ResponseTokenView>,
    b: Map<Seq<char>, Seq<u8>>,
    n: nat,
    c: int,
)
    requires
        n <= tokens.len(),
        0 <= c < dg.len(),
        c < other.len(),
        forall|i: int| 0 <= i <= c ==> other[i] == dg[i],
        match_prefix(dg, tokens, b, n).cursor <= c,
        !(match_prefix(dg, tokens, b, n).status is Malformed),
    ensures
        match_prefix(other, tokens, b, n) == match_prefix(dg, tokens, b, n),
    decreases n,
{
    if n > 0 {
        let m = (n - 1) as nat;
        let s = match_prefix(dg, tokens, b, m);
        lemma_mismatch_in_range(dg, tokens, b, m);
        assert(s.cursor <= match_prefix(dg, tokens, b, n).cursor);
        assert(!(s.status is Malformed));
        lemma_same_steps(dg, other, tokens, b, m, c);
        if s.status is Running {
            match tokens[n - 1] {
                ResponseTokenView::Accept(values) => {},
                ResponseTokenView::Capture(name) => {
                    let end = s.cursor + 2 + be16_at(dg, s.cursor);
                    assert(be16_at(other, s.cursor) == be16_at(dg, s.cursor));
                    assert(other.subrange(s.cursor + 2, end) =~= dg.subrange(s.cursor + 2, end));
                },
            }
        }
    }
}

/// Matching stops at the first unacceptable byte and reads nothing after it:
/// any datagram that agrees with `dg` up to and including that byte gets the
/// same verdict and the same bindings.
pub proof fn lemma_mismatch_reads_no_further(
    dg: Seq<u8>,
    other: Seq<u8>,
    tokens: Seq<ResponseTokenView>,
    b: Map<Seq<char>, Seq<u8>>,
)
    requires
        match_all(dg, tokens, b).status is Mismatch,
        match_all(dg, tokens, b).cursor < other.len(),
        forall|i: int|
            0 <= i <= match_all(dg, tokens, b).cursor ==> other[i] == dg[i],
    ensures
        match_all(other, tokens, b) == match_all(dg, tokens, b),
        verdict(match_all(other, tokens, b)) == Ok::<bool, Error>(false),
{
    lemma_mismatch_in_range(dg, tokens, b, tokens.len());
    lemma_same_steps(dg, other, tokens, b, tokens.len(), match_all(dg, tokens, b).cursor);
}

/// A match still running after `m` tokens was running after each earlier one.
pub proof fn lemma_running_prefix(
    dg: Seq<u8>,
    tokens: Seq<ResponseTokenView>,
    b: Map<Seq<char>, Seq<u8>>,
    n: nat,
    m: nat,
)
    requires
        n <= m <= tokens.len(),
        match_prefix(dg, tokens, b, m).status is Running,
    ensures
        match_prefix(dg, tokens, b, n).status is Running,
{
    if !(match_prefix(dg, tokens, b, n).status is Running) {
        lemma_stopped_stays(dg, tokens, b, n, m);
    }
}

} // verus!
