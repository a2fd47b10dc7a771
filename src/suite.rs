//! The suite interpreter: a walk over a test-suite document that yields, in
//! document order, what to report and which sequences to run with which
//! addresses.
use vstd::prelude::*;
use crate::bindings::same_chars;
use crate::can::{EXTENDED_ID_MAX, ExtendedId, Id, STANDARD_ID_MAX, StandardId};
use crate::error::Error;
use crate::runner::Step;
use crate::text::{chars_of, has_prefix, hex_number, parse_hex, slice_of, split_chars, split_on, starts_with};

verus! {

/// A document tree: the node kinds of JSON.
#[derive(Debug)]
pub enum JsonNode {
    Null,
    Bool(bool),
    /// A number, kept as its text.
    Number(String),
    Str(String),
    Array(Vec<JsonNode>),
    /// Entries in document order.
    Object(Vec<(String, JsonNode)>),
}

/// The request and response side addresses of the sequences that follow.
#[derive(Debug, Clone, Copy, PartialEq, Eq, Structural)]
pub struct Addressing {
    /// Source address of the response side's ISO-TP socket.
    pub src: Id,
    /// Destination address of the response side's ISO-TP socket.
    pub dest: Id,
    /// Identifier that request frames are sent to.
    pub tx_id: u32,
}

/// A step as text.
pub struct StepView {
    pub name: Seq<char>,
    pub request: Seq<Seq<char>>,
    pub response: Seq<Seq<char>>,
}

/// A sequence to run: its addresses and steps.
#[derive(Debug)]
pub struct SequencePlan {
    pub addressing: Addressing,
    pub steps: Vec<Step>,
}

/// One thing the walk yields.
#[derive(Debug)]
pub enum SuiteItem {
    /// A suite name to report.
    Announce(String),
    /// A key the interpreter does not know; reported and skipped.
    Unknown(String),
    /// An `ID` that does not parse or does not fit its form; reported, and
    /// the object that holds it is skipped.
    InvalidId(String),
    /// A sequence to run.
    Run(SequencePlan),
}

/// What the walk yields, as a value.
pub enum SuiteItemView {
    Announce(Seq<char>),
    Unknown(Seq<char>),
    InvalidId(Seq<char>),
    Run(Addressing, Seq<StepView>),
}

pub open spec fn step_view(s: Step) -> StepView {
    StepView {
        name: s.name@,
        request: s.request@.map_values(|x: String| x@),
        response: s.response@.map_values(|x: String| x@),
    }
}

pub open spec fn step_views(s: Seq<Step>) -> Seq<StepView> {
    s.map_values(|x: Step| step_view(x))
}

pub open spec fn item_view(i: SuiteItem) -> SuiteItemView {
    match i {
        SuiteItem::Announce(s) => SuiteItemView::Announce(s@),
        SuiteItem::Unknown(s) => SuiteItemView::Unknown(s@),
        SuiteItem::InvalidId(s) => SuiteItemView::InvalidId(s@),
        SuiteItem::Run(p) => SuiteItemView::Run(p.addressing, step_views(p.steps@)),
    }
}

pub open spec fn item_views(s: Seq<SuiteItem>) -> Seq<SuiteItemView> {
    s.map_values(|x: SuiteItem| item_view(x))
}

pub open spec fn suite_name_key() -> Seq<char> {
    seq!['T', 'e', 's', 't', 'S', 'u', 'i', 't', 'e', 'N', 'a', 'm', 'e']
}

pub open spec fn id_key() -> Seq<char> {
    seq!['I', 'D']
}

pub open spec fn tests_key() -> Seq<char> {
    seq!['T', 'e', 's', 't', 's']
}

pub open spec fn sequence_key() -> Seq<char> {
    seq!['S', 'e', 'q', 'u', 'e', 'n', 'c', 'e']
}

pub open spec fn response_marker() -> Seq<char> {
    seq!['R', 'e', 's', 'p', 'o', 'n', 's', 'e']
}

pub open spec fn standard_word() -> Seq<char> {
    seq!['S', 't', 'a', 'n', 'd', 'a', 'r', 'd']
}

pub open spec fn extended_word() -> Seq<char> {
    seq!['E', 'x', 't', 'e', 'n', 'd', 'e', 'd']
}

/// A `0x`-prefixed hexadecimal address no larger than `max`.
pub open spec fn address_value(t: Seq<char>, max: nat) -> Option<nat> {
    if has_prefix(t, seq!['0', 'x']) {
        hex_number(t.subrange(2, t.len() as int), max)
    } else {
        None
    }
}

/// The addresses an `ID` string `"<Standard|Extended>,0x<src>,0x<dest>"`
/// names, when the form is known and both values fit it. Requests go to the
/// destination.
pub open spec fn id_addressing(t: Seq<char>) -> Option<Addressing> {
    let parts = split_on(t, ',');
    if parts.len() != 3 {
        None
    } else if parts[0] == standard_word() {
        match (address_value(parts[1], STANDARD_ID_MAX as nat), address_value(parts[2], STANDARD_ID_MAX as nat)) {
            (Some(s), Some(d)) => Some(
                Addressing {
                    src: Id::Standard(StandardId::from_raw(s as u16)),
                    dest: Id::Standard(StandardId::from_raw(d as u16)),
                    tx_id: d as u32,
                },
            ),
            _ => None,
        }
    } else if parts[0] == extended_word() {
        match (address_value(parts[1], EXTENDED_ID_MAX as nat), address_value(parts[2], EXTENDED_ID_MAX as nat)) {
            (Some(s), Some(d)) => Some(
                Addressing {
                    src: Id::Extended(ExtendedId::from_raw(s as u32)),
                    dest: Id::Extended(ExtendedId::from_raw(d as u32)),
                    tx_id: d as u32,
                },
            ),
            _ => None,
        }
    } else {
        None
    }
}

/// How an array of step text splits at its first `"Response"` marker:
/// string elements before it are the request, every string after it (a later
/// marker included) the response.
pub struct SplitState {
    pub request: Seq<Seq<char>>,
    pub response: Seq<Seq<char>>,
    pub divided: bool,
}

pub open spec fn split_prefix(elems: Seq<JsonNode>, n: nat) -> SplitState
    decreases n,
{
    if n == 0 || n > elems.len() {
        SplitState { request: Seq::empty(), response: Seq::empty(), divided: false }
    } else {
        let s = split_prefix(elems, (n - 1) as nat);
        match elems[n - 1] {
            JsonNode::Str(t) => {
                if s.divided {
                    SplitState { response: s.response.push(t@), ..s }
                } else if t@ == response_marker() {
                    SplitState { divided: true, ..s }
                } else {
                    SplitState { request: s.request.push(t@), ..s }
                }
            },
            _ => s,
        }
    }
}

/// The entries of the object elements of a sequence, in order.
pub open spec fn sequence_entries(elems: Seq<JsonNode>, n: nat) -> Seq<(String, JsonNode)>
    decreases n,
{
    if n == 0 || n > elems.len() {
        Seq::empty()
    } else {
        match elems[n - 1] {
            JsonNode::Object(es) => sequence_entries(elems, (n - 1) as nat) + es@,
            _ => sequence_entries(elems, (n - 1) as nat),
        }
    }
}

/// The steps of a sequence's entries and the name in force after them: a
/// string names the steps after it, an array is a step.
pub open spec fn entry_steps(entries: Seq<(String, JsonNode)>) -> (Seq<StepView>, Seq<char>)
    decreases entries.len(),
{
    if entries.len() == 0 {
        (Seq::empty(), Seq::empty())
    } else {
        let (steps, name) = entry_steps(entries.drop_last());
        match entries.last().1 {
            JsonNode::Str(t) => (steps, t@),
            JsonNode::Array(elems) => {
                let sp = split_prefix(elems@, elems@.len());
                (steps.push(StepView { name, request: sp.request, response: sp.response }), name)
            },
            _ => (steps, name),
        }
    }
}

pub open spec fn sequence_steps(elems: Seq<JsonNode>) -> Seq<StepView> {
    entry_steps(sequence_entries(elems, elems.len())).0
}

/// `items` before what `r` yields; the addresses of `r`.
pub open spec fn prepend(
    items: Seq<SuiteItemView>,
    r: (Seq<SuiteItemView>, Addressing),
) -> (Seq<SuiteItemView>, Addressing) {
    (items + r.0, r.1)
}

/// An object entry that sets the addresses: a string under `"ID"`.
pub open spec fn is_id_entry(e: (String, JsonNode)) -> bool {
    e.0@ == id_key() && e.1 is Str
}

/// The addresses after the `ID` entries among the first `n` entries of an
/// object, or the text of the first one that is malformed.
pub open spec fn ids_prefix(es: Seq<(String, JsonNode)>, n: nat, a: Addressing) -> Result<
    Addressing,
    Seq<char>,
>
    decreases n,
{
    if n == 0 || n > es.len() {
        Ok(a)
    } else {
        match ids_prefix(es, (n - 1) as nat, a) {
            Err(t) => Err(t),
            Ok(a1) => {
                if is_id_entry(es[n - 1]) {
                    let t = es[n - 1].1->Str_0@;
                    match id_addressing(t) {
                        None => Err(t),
                        Some(b) => Ok(b),
                    }
                } else {
                    Ok(a1)
                }
            },
        }
    }
}

/// The walk of `node`, found under `key`, starting with addresses `a`: what
/// it yields and the addresses after it.
///
/// Dispatch goes by key, not by position: an object's `ID` entries apply
/// before any of its other entries, so its sequences run with those
/// addresses wherever the `ID` stands. A malformed `ID` is reported and its
/// object skipped; the walk goes on with the rest of the document.
pub open spec fn walk(node: JsonNode, key: Option<Seq<char>>, a: Addressing) -> (
    Seq<SuiteItemView>,
    Addressing,
)
    decreases node, 1nat, 0nat,
{
    match node {
        JsonNode::Str(s) => match key {
            None => (Seq::empty(), a),
            Some(k) => {
                if k == suite_name_key() {
                    (seq![SuiteItemView::Announce(s@)], a)
                } else if k == id_key() {
                    match id_addressing(s@) {
                        None => (seq![SuiteItemView::InvalidId(s@)], a),
                        Some(b) => (Seq::empty(), b),
                    }
                } else {
                    (seq![SuiteItemView::Unknown(k)], a)
                }
            },
        },
        JsonNode::Array(vs) => match key {
            None => (Seq::empty(), a),
            Some(k) => {
                if k == tests_key() {
                    walk_elements(node, 0, a)
                } else if k == sequence_key() {
                    (seq![SuiteItemView::Run(a, sequence_steps(vs@))], a)
                } else {
                    (seq![SuiteItemView::Unknown(k)], a)
                }
            },
        },
        JsonNode::Object(es) => match ids_prefix(es@, es@.len(), a) {
            Err(t) => (seq![SuiteItemView::InvalidId(t)], a),
            Ok(a1) => walk_entries(node, 0, a1),
        },
        _ => (Seq::empty(), a),
    }
}

/// The walk of the elements of an array node from index `i` on.
pub open spec fn walk_elements(node: JsonNode, i: nat, a: Addressing) -> (
    Seq<SuiteItemView>,
    Addressing,
)
    decreases node, 0nat, (if node is Array { node->Array_0@.len() } else { 0 }) - i,
{
    match node {
        JsonNode::Array(vs) => {
            if i < vs@.len() {
                let (items, a2) = walk(vs@[i as int], None, a);
                prepend(items, walk_elements(node, i + 1, a2))
            } else {
                (Seq::empty(), a)
            }
        },
        _ => (Seq::empty(), a),
    }
}

/// The walk of the entries of an object node from index `i` on, but its
/// `ID` entries, which `walk` has applied already.
pub open spec fn walk_entries(node: JsonNode, i: nat, a: Addressing) -> (
    Seq<SuiteItemView>,
    Addressing,
)
    decreases node, 0nat, (if node is Object { node->Object_0@.len() } else { 0 }) - i,
{
    match node {
        JsonNode::Object(es) => {
            if i < es@.len() {
                if is_id_entry(es@[i as int]) {
                    walk_entries(node, i + 1, a)
                } else {
                    let (items, a2) = walk(es@[i as int].1, Some(es@[i as int].0@), a);
                    prepend(items, walk_entries(node, i + 1, a2))
                }
            } else {
                (Seq::empty(), a)
            }
        },
        _ => (Seq::empty(), a),
    }
}

fn word(w: &Vec<char>, t: &String) -> (r: bool)
    ensures
        r == (t@ == w@),
{
    same_chars(&chars_of(t.as_str()), w)
}

fn suite_name_chars() -> (r: Vec<char>)
    ensures
        r@ == suite_name_key(),
{
    let r = vec!['T', 'e', 's', 't', 'S', 'u', 'i', 't', 'e', 'N', 'a', 'm', 'e'];
    assert(r@ =~= suite_name_key());
    r
}

fn id_chars() -> (r: Vec<char>)
    ensures
        r@ == id_key(),
{
    let r = vec!['I', 'D'];
    assert(r@ =~= id_key());
    r
}

fn tests_chars() -> (r: Vec<char>)
    ensures
        r@ == tests_key(),
{
    let r = vec!['T', 'e', 's', 't', 's'];
    assert(r@ =~= tests_key());
    r
}

fn sequence_chars() -> (r: Vec<char>)
    ensures
        r@ == sequence_key(),
{
    let r = vec!['S', 'e', 'q', 'u', 'e', 'n', 'c', 'e'];
    assert(r@ =~= sequence_key());
    r
}

fn response_chars() -> (r: Vec<char>)
    ensures
        r@ == response_marker(),
{
    let r = vec!['R', 'e', 's', 'p', 'o', 'n', 's', 'e'];
    assert(r@ =~= response_marker());
    r
}

fn standard_chars() -> (r: Vec<char>)
    ensures
        r@ == standard_word(),
{
    let r = vec!['S', 't', 'a', 'n', 'd', 'a', 'r', 'd'];
    assert(r@ =~= standard_word());
    r
}

fn extended_chars() -> (r: Vec<char>)
    ensures
        r@ == extended_word(),
{
    let r = vec!['E', 'x', 't', 'e', 'n', 'd', 'e', 'd'];
    assert(r@ =~= extended_word());
    r
}

fn parse_address(t: &Vec<char>, max: u32) -> (r: Option<u32>)
    ensures
        r is Some <==> address_value(t@, max as nat) is Some,
        r is Some ==> r->0 == address_value(t@, max as nat)->0,
{
    let prefix = vec!['0', 'x'];
    assert(prefix@ =~= seq!['0', 'x']);
    if !starts_with(t, &prefix) {
        return None;
    }
    parse_hex(&slice_of(t, 2, t.len()), max)
}

/// Reads an `ID` string: `"Standard,0x<src>,0x<dest>"` for 11-bit or
/// `"Extended,0x<src>,0x<dest>"` for 29-bit addresses. Requests go to the
/// destination. `Config` when the string is malformed or a value does not fit.
pub fn parse_id(text: &str) -> (r: Result<Addressing, Error>)
    ensures
        id_addressing(text@) is None ==> r == Err::<Addressing, Error>(Error::Config),
        id_addressing(text@) is Some ==> r == Ok::<Addressing, Error>(id_addressing(text@)->0),
{
    let t = chars_of(text);
    let parts = split_chars(&t, ',');
    if parts.len() != 3 {
        return Err(Error::Config);
    }
    assert(parts@[0]@ == split_on(t@, ',')[0] && parts@[1]@ == split_on(t@, ',')[1] && parts@[2]@
        == split_on(t@, ',')[2]);
    if same_chars(&parts[0], &standard_chars()) {
        let s = match parse_address(&parts[1], STANDARD_ID_MAX as u32) {
            Some(v) => v,
            None => {
                return Err(Error::Config);
            },
        };
        let d = match parse_address(&parts[2], STANDARD_ID_MAX as u32) {
            Some(v) => v,
            None => {
                return Err(Error::Config);
            },
        };
        let src = StandardId::new(s as u16).unwrap();
        let dest = StandardId::new(d as u16).unwrap();
        Ok(Addressing { src: Id::Standard(src), dest: Id::Standard(dest), tx_id: d })
    } else if same_chars(&parts[0], &extended_chars()) {
        let s = match parse_address(&parts[1], EXTENDED_ID_MAX) {
            Some(v) => v,
            None => {
                return Err(Error::Config);
            },
        };
        let d = match parse_address(&parts[2], EXTENDED_ID_MAX) {
            Some(v) => v,
            None => {
                return Err(Error::Config);
            },
        };
        let src = ExtendedId::new(s).unwrap();
        let dest = ExtendedId::new(d).unwrap();
        Ok(Addressing { src: Id::Extended(src), dest: Id::Extended(dest), tx_id: d })
    } else {
        Err(Error::Config)
    }
}

/// Splits the text of one step at its first `"Response"` marker: request
/// tokens before it, response tokens after it (a later marker is a response
/// token like any other). Elements that are not strings are skipped.
pub fn split_step(elems: &Vec<JsonNode>) -> (r: (Vec<String>, Vec<String>))
    ensures
        r.0@.map_values(|x: String| x@) == split_prefix(elems@, elems@.len()).request,
        r.1@.map_values(|x: String| x@) == split_prefix(elems@, elems@.len()).response,
{
    let marker = response_chars();
    let mut request: Vec<String> = Vec::new();
    let mut response: Vec<String> = Vec::new();
    let mut divided = false;
    let mut i: usize = 0;
    while i < elems.len()
        invariant
            marker@ == response_marker(),
            0 <= i <= elems@.len(),
            request@.map_values(|x: String| x@) == split_prefix(elems@, i as nat).request,
            response@.map_values(|x: String| x@) == split_prefix(elems@, i as nat).response,
            divided == split_prefix(elems@, i as nat).divided,
        decreases elems@.len() - i,
    {
        if let JsonNode::Str(t) = &elems[i] {
            if divided {
                response.push(t.clone());
                assert(response@.map_values(|x: String| x@) =~= split_prefix(elems@, (i + 1) as nat).response);
            } else if word(&marker, t) {
                divided = true;
            } else {
                request.push(t.clone());
                assert(request@.map_values(|x: String| x@) =~= split_prefix(elems@, (i + 1) as nat).request);
            }
        }
        i = i + 1;
    }
    (request, response)
}

/// The steps of a `"Sequence"` array, in order.
pub fn sequence_steps_of(elems: &Vec<JsonNode>) -> (r: Vec<Step>)
    ensures
        step_views(r@) == sequence_steps(elems@),
{
    let mut steps: Vec<Step> = Vec::new();
    let mut name = String::new();
    let ghost mut done: Seq<(String, JsonNode)> = Seq::empty();
    let mut i: usize = 0;
    while i < elems.len()
        invariant
            0 <= i <= elems@.len(),
            done == sequence_entries(elems@, i as nat),
            entry_steps(done) == (step_views(steps@), name@),
        decreases elems@.len() - i,
    {
        if let JsonNode::Object(es) = &elems[i] {
            let ghost start = done;
            let mut j: usize = 0;
            assert(start + es@.subrange(0, 0) =~= start);
            while j < es.len()
                invariant
                    0 <= j <= es@.len(),
                    done == start + es@.subrange(0, j as int),
                    entry_steps(done) == (step_views(steps@), name@),
                decreases es@.len() - j,
            {
                let ghost before = done;
                proof {
                    done = done.push(es@[j as int]);
                    assert(done =~= start + es@.subrange(0, j + 1 as int));
                    assert(done.drop_last() =~= before);
                }
                match &es[j].1 {
                    JsonNode::Str(t) => {
                        name = t.clone();
                    },
                    JsonNode::Array(v) => {
                        let (request, response) = split_step(v);
                        let ghost old_steps = steps@;
                        steps.push(Step { name: name.clone(), request, response });
                        assert(step_views(steps@) =~= step_views(old_steps).push(step_view(steps@.last())));
                    },
                    _ => {},
                }
                j = j + 1;
            }
            assert(es@.subrange(0, es@.len() as int) =~= es@);
        }
        i = i + 1;
    }
    steps
}

pub open spec fn key_view(key: Option<&String>) -> Option<Seq<char>> {
    match key {
        None => None,
        Some(k) => Some(k@),
    }
}

proof fn lemma_prepend_assoc(
    x: Seq<SuiteItemView>,
    y: Seq<SuiteItemView>,
    r: (Seq<SuiteItemView>, Addressing),
)
    ensures
        prepend(x, prepend(y, r)) == prepend(x + y, r),
{
    assert(x + (y + r.0) =~= (x + y) + r.0);
}

proof fn lemma_prepend_empty(r: (Seq<SuiteItemView>, Addressing))
    ensures
        prepend(Seq::empty(), r) == r,
{
    assert(Seq::<SuiteItemView>::empty() + r.0 =~= r.0);
}

/// A malformed `ID` stays the first one however many entries follow.
proof fn lemma_ids_error_stays(es: Seq<(String, JsonNode)>, n: nat, m: nat, a: Addressing)
    requires
        n <= m <= es.len(),
        ids_prefix(es, n, a) is Err,
    ensures
        ids_prefix(es, m, a) == ids_prefix(es, n, a),
    decreases m - n,
{
    if m > n {
        lemma_ids_error_stays(es, n, (m - 1) as nat, a);
    }
}

fn is_id_text<'a>(e: &'a (String, JsonNode), id: &Vec<char>) -> (r: Option<&'a String>)
    requires
        id@ == id_key(),
    ensures
        r is Some <==> is_id_entry(*e),
        r is Some ==> e.1 == JsonNode::Str(*r->0),
{
    if word(id, &e.0) {
        if let JsonNode::Str(t) = &e.1 {
            return Some(t);
        }
    }
    None
}

fn walk_node(node: &JsonNode, key: Option<&String>, a: &mut Addressing, out: &mut Vec<SuiteItem>)
    ensures
        item_views(final(out)@) == item_views(old(out)@) + walk(*node, key_view(key), *old(a)).0,
        *final(a) == walk(*node, key_view(key), *old(a)).1,
    decreases node,
{
    let ghost a0 = *a;
    let ghost out0 = out@;
    match node {
        JsonNode::Str(s) => {
            match key {
                None => {
                    assert(item_views(out@) =~= item_views(out0) + Seq::empty());
                },
                Some(k) => {
                    if word(&suite_name_chars(), k) {
                        out.push(SuiteItem::Announce(s.clone()));
                        assert(item_views(out@) =~= item_views(out0) + seq![SuiteItemView::Announce(s@)]);
                    } else if word(&id_chars(), k) {
                        match parse_id(s.as_str()) {
                            Err(_) => {
                                out.push(SuiteItem::InvalidId(s.clone()));
                                assert(item_views(out@) =~= item_views(out0) + seq![
                                    SuiteItemView::InvalidId(s@),
                                ]);
                            },
                            Ok(b) => {
                                *a = b;
                                assert(item_views(out@) =~= item_views(out0) + Seq::empty());
                            },
                        }
                    } else {
                        out.push(SuiteItem::Unknown(k.clone()));
                        assert(item_views(out@) =~= item_views(out0) + seq![SuiteItemView::Unknown(k@)]);
                    }
                },
            }
        },
        JsonNode::Array(vs) => {
            match key {
                None => {
                    assert(item_views(out@) =~= item_views(out0) + Seq::empty());
                },
                Some(k) => {
                    if word(&tests_chars(), k) {
                        let ghost mut acc: Seq<SuiteItemView> = Seq::empty();
                        let mut i: usize = 0;
                        assert(item_views(out@) =~= item_views(out0) + acc);
                        proof {
                            lemma_prepend_empty(walk_elements(*node, 0, a0));
                        }
                        while i < vs.len()
                            invariant
                                *node == JsonNode::Array(*vs),
                                a0 == *old(a),
                                walk(*node, key_view(key), a0) == walk_elements(*node, 0, a0),
                                0 <= i <= vs@.len(),
                                item_views(out@) == item_views(out0) + acc,
                                walk_elements(*node, 0, a0) == prepend(acc, walk_elements(*node, i as nat, *a)),
                            decreases vs@.len() - i,
                        {
                            let ghost ai = *a;
                            walk_node(&vs[i], None, a, out);
                            proof {
                                let items = walk(vs@[i as int], None, ai).0;
                                lemma_prepend_assoc(acc, items, walk_elements(*node, (i + 1) as nat, *a));
                                assert(item_views(out@) =~= item_views(out0) + (acc + items));
                                acc = acc + items;
                            }
                            i = i + 1;
                        }
                        assert(acc + walk_elements(*node, i as nat, *a).0 =~= acc);
                    } else if word(&sequence_chars(), k) {
                        let steps = sequence_steps_of(vs);
                        out.push(SuiteItem::Run(SequencePlan { addressing: *a, steps }));
                        assert(item_views(out@) =~= item_views(out0) + seq![
                            SuiteItemView::Run(a0, sequence_steps(vs@)),
                        ]);
                    } else {
                        out.push(SuiteItem::Unknown(k.clone()));
                        assert(item_views(out@) =~= item_views(out0) + seq![SuiteItemView::Unknown(k@)]);
                    }
                },
            }
        },
        JsonNode::Object(es) => {
            let id = id_chars();
            let mut cur: Addressing = *a;
            let mut i: usize = 0;
            while i < es.len()
                invariant
                    id@ == id_key(),
                    0 <= i <= es@.len(),
                    ids_prefix(es@, i as nat, a0) == Ok::<Addressing, Seq<char>>(cur),
                    *node == JsonNode::Object(*es),
                    a0 == *old(a),
                    out0 == old(out)@,
                    *a == a0,
                    out@ == out0,
                decreases es@.len() - i,
            {
                if let Some(t) = is_id_text(&es[i], &id) {
                    match parse_id(t.as_str()) {
                        Err(_) => {
                            out.push(SuiteItem::InvalidId(t.clone()));
                            proof {
                                assert(ids_prefix(es@, (i + 1) as nat, a0) == Err::<Addressing, Seq<char>>(t@));
                                lemma_ids_error_stays(es@, (i + 1) as nat, es@.len(), a0);
                                assert(item_views(out@) =~= item_views(out0) + seq![
                                    SuiteItemView::InvalidId(t@),
                                ]);
                            }
                            return;
                        },
                        Ok(b) => {
                            cur = b;
                        },
                    }
                }
                i = i + 1;
            }
            *a = cur;
            let ghost a1 = cur;
            let ghost mut acc: Seq<SuiteItemView> = Seq::empty();
            let mut j: usize = 0;
            assert(item_views(out@) =~= item_views(out0) + acc);
            proof {
                lemma_prepend_empty(walk_entries(*node, 0, a1));
            }
            while j < es.len()
                invariant
                    *node == JsonNode::Object(*es),
                    id@ == id_key(),
                    walk(*node, key_view(key), a0) == walk_entries(*node, 0, a1),
                    0 <= j <= es@.len(),
                    item_views(out@) == item_views(out0) + acc,
                    walk_entries(*node, 0, a1) == prepend(acc, walk_entries(*node, j as nat, *a)),
                decreases es@.len() - j,
            {
                if is_id_text(&es[j], &id).is_none() {
                    let ghost aj = *a;
                    walk_node(&es[j].1, Some(&es[j].0), a, out);
                    proof {
                        let items = walk(es@[j as int].1, Some(es@[j as int].0@), aj).0;
                        lemma_prepend_assoc(acc, items, walk_entries(*node, (j + 1) as nat, *a));
                        assert(item_views(out@) =~= item_views(out0) + (acc + items));
                        acc = acc + items;
                    }
                }
                j = j + 1;
            }
            assert(acc + walk_entries(*node, j as nat, *a).0 =~= acc);
        },
        _ => {
            assert(item_views(out@) =~= item_views(out0) + Seq::empty());
        },
    }
}

/// The addresses in force before any `ID`: standard form, both zero.
pub open spec fn initial_addressing() -> Addressing {
    Addressing {
        src: Id::Standard(StandardId::from_raw(0)),
        dest: Id::Standard(StandardId::from_raw(0)),
        tx_id: 0,
    }
}

/// Walks a test-suite document and lists, in document order, the suite
/// names to report, the unknown keys and malformed `ID`s to report, and the
/// sequences to run with the addresses in force for them.
pub fn plan_suite(doc: &JsonNode) -> (r: Vec<SuiteItem>)
    ensures
        item_views(r@) == walk(*doc, None, initial_addressing()).0,
{
    let zero = StandardId::new(0).unwrap();
    let mut a = Addressing { src: Id::Standard(zero), dest: Id::Standard(zero), tx_id: 0 };
    let mut out: Vec<SuiteItem> = Vec::new();
    walk_node(doc, None, &mut a, &mut out);
    assert(item_views(Seq::<SuiteItem>::empty()) =~= Seq::<SuiteItemView>::empty());
    assert(item_views(out@) =~= walk(*doc, None, initial_addressing()).0);
    out
}

} // verus!
