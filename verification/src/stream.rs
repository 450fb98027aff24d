//! The streaming decoder proper: provider SSE lines become discrete events,
//! and tool-call argument fragments are accumulated per call id until a
//! finish signal asks for their completion.

use vstd::prelude::*;
use vstd::string::*;
use crate::json::{Json, jget, jstr, json_of, parse_json};
use crate::sse::{has_nl, first_nl, complete_lines, line_rest, take_line, lemma_first_nl,
    lemma_lines_append};
use crate::text::{is_ws, is_ws_char, trim, lemma_trim_subrange, str_eq};

verus! {

/// Token counts reported by a provider at the end of a stream.
#[derive(Debug, Clone, PartialEq)]
pub struct UsageStats {
    pub input_tokens: u32,
    pub output_tokens: u32,
    pub cached_input_tokens: Option<u32>,
}

/// One event delivered to the consumer of a chat stream.
#[derive(Debug, PartialEq)]
pub enum StreamEvent {
    Start,
    TextDelta { delta: String },
    ToolCallStart { tool_call_id: String, tool_name: String },
    ToolInputDelta { tool_call_id: String, delta: String },
    ToolInputComplete { tool_call_id: String, tool_name: String, input: Json },
    Finish { usage: Option<UsageStats> },
    Error { error: String },
}

/// What one decoded SSE line asks of the accumulator.
#[derive(Debug, PartialEq)]
pub enum LineAction {
    Text { delta: String },
    Fragment { id: String, name: Option<String>, args: Option<String> },
    FinishSignal,
}

// ---------------------------------------------------------------------------
// What a parsed delta object means, as a function of the `Json` value.
// ---------------------------------------------------------------------------

/// The text delta a `delta` object carries: a non-empty `content` string.
pub open spec fn content_actions(d: Json) -> Seq<LineAction> {
    match jget(d, "content"@) {
        Some(Json::Str(s)) => if s@.len() > 0 {
            seq![LineAction::Text { delta: s }]
        } else {
            Seq::empty()
        },
        _ => Seq::empty(),
    }
}

/// The fragment one element of `tool_calls` carries: its id must be a
/// string and its `function` an object; name and arguments are optional.
pub open spec fn frag_actions(tc: Json) -> Seq<LineAction> {
    match jstr(jget(tc, "id"@)) {
        Some(id) => match jget(tc, "function"@) {
            Some(f) => if f is Obj {
                seq![
                    LineAction::Fragment {
                        id: id,
                        name: jstr(jget(f, "name"@)),
                        args: jstr(jget(f, "arguments"@)),
                    },
                ]
            } else {
                Seq::empty()
            },
            None => Seq::empty(),
        },
        None => Seq::empty(),
    }
}

pub open spec fn tool_call_actions(tcs: Seq<Json>) -> Seq<LineAction>
    decreases tcs.len(),
{
    if tcs.len() == 0 {
        Seq::empty()
    } else {
        frag_actions(tcs[0]) + tool_call_actions(tcs.drop_first())
    }
}

/// The actions of a choice's `delta` member: text first, then tool calls.
pub open spec fn delta_actions(c: Json) -> Seq<LineAction> {
    match jget(c, "delta"@) {
        Some(d) => content_actions(d) + (match jget(d, "tool_calls"@) {
            Some(Json::Arr(tcs)) => tool_call_actions(tcs@),
            _ => Seq::empty(),
        }),
        None => Seq::empty(),
    }
}

/// A `finish_reason` of "stop" or "tool_calls" signals completion intent.
pub open spec fn finish_sig(c: Json) -> Seq<LineAction> {
    match jstr(jget(c, "finish_reason"@)) {
        Some(r) => if r@ == "stop"@ || r@ == "tool_calls"@ {
            seq![LineAction::FinishSignal]
        } else {
            Seq::empty()
        },
        None => Seq::empty(),
    }
}

/// All actions of one parsed SSE payload: the first choice's delta,
/// then its finish signal, if any.
pub open spec fn json_actions(j: Json) -> Seq<LineAction> {
    match jget(j, "choices"@) {
        Some(Json::Arr(cs)) => if cs@.len() > 0 {
            delta_actions(cs@[0]) + finish_sig(cs@[0])
        } else {
            Seq::empty()
        },
        _ => Seq::empty(),
    }
}

// ---------------------------------------------------------------------------
// What a raw line means.
// ---------------------------------------------------------------------------

/// What serde_json's lossy byte decoding makes of a byte sequence:
/// invalid sequences become replacement characters, so decoding is total
/// and a function of the bytes alone.
pub uninterp spec fn lossy_utf8(b: Seq<u8>) -> Seq<char>;

/// Relies on String::from_utf8_lossy: decoding never fails, substituting
/// the replacement character for invalid sequences, and depends on the
/// bytes alone.
#[verifier::external_body]
fn lossy_decode(b: &[u8]) -> (r: String)
    ensures
        r@ == lossy_utf8(b@),
{
    String::from_utf8_lossy(b).into_owned()
}

/// The JSON payload of a line: trimmed, not blank, not the termination
/// sentinel, and prefixed `data: `.
pub open spec fn line_data(line: Seq<u8>) -> Option<Seq<char>> {
    let t = trim(lossy_utf8(line));
    if t.len() == 0 || t == "data: [DONE]"@ {
        None
    } else if t.len() >= 6 && t.take(6) == "data: "@ {
        Some(t.skip(6))
    } else {
        None
    }
}

/// The actions of one raw line; lines without payload, and payloads that
/// are not JSON, ask nothing.
pub open spec fn line_actions(line: Seq<u8>) -> Seq<LineAction> {
    match line_data(line) {
        Some(d) => match json_of(d) {
            Some(j) => json_actions(j),
            None => Seq::empty(),
        },
        None => Seq::empty(),
    }
}

// ---------------------------------------------------------------------------
// The accumulator's state machine.
// ---------------------------------------------------------------------------

/// One tracked tool call: its id, the first name it was declared with,
/// and the argument text accumulated so far.
pub struct AccEntry {
    pub id: String,
    pub name: String,
    pub args: Seq<char>,
}

pub open spec fn has_entry(st: Seq<AccEntry>, id: Seq<char>) -> bool {
    exists|k: int| 0 <= k < st.len() && st[k].id@ == id
}

pub open spec fn unique_ids(st: Seq<AccEntry>) -> bool {
    forall|i: int, j: int| 0 <= i < j < st.len() ==> st[i].id@ != st[j].id@
}

/// Append a fragment to the entry with the given id.
pub open spec fn append_entry_args(st: Seq<AccEntry>, id: Seq<char>, frag: Seq<char>) -> Seq<
    AccEntry,
> {
    Seq::new(
        st.len(),
        |k: int|
            if st[k].id@ == id {
                AccEntry { id: st[k].id, name: st[k].name, args: st[k].args + frag }
            } else {
                st[k]
            },
    )
}

/// One tool-call fragment: a present name declares the call (the first
/// declaration wins in the table, but each declaration is announced);
/// a present argument fragment extends a known entry and is always
/// announced, whether or not the id is known.
pub open spec fn frag_step(
    st: Seq<AccEntry>,
    id: String,
    name: Option<String>,
    args: Option<String>,
) -> (Seq<AccEntry>, Seq<StreamEvent>) {
    let st1 = if name is Some && !has_entry(st, id@) {
        st.push(AccEntry { id: id, name: name->0, args: Seq::empty() })
    } else {
        st
    };
    let ev1: Seq<StreamEvent> = match name {
        Some(n) => seq![StreamEvent::ToolCallStart { tool_call_id: id, tool_name: n }],
        None => Seq::empty(),
    };
    let st2 = match args {
        Some(f) => if has_entry(st1, id@) {
            append_entry_args(st1, id@, f@)
        } else {
            st1
        },
        None => st1,
    };
    let ev2: Seq<StreamEvent> = match args {
        Some(f) => seq![StreamEvent::ToolInputDelta { tool_call_id: id, delta: f }],
        None => Seq::empty(),
    };
    (st2, ev1 + ev2)
}

/// On a finish signal every entry whose accumulated text parses as JSON
/// is completed, in table order; the others are passed over in silence.
pub open spec fn finish_events(st: Seq<AccEntry>) -> Seq<StreamEvent>
    decreases st.len(),
{
    if st.len() == 0 {
        Seq::empty()
    } else {
        (match json_of(st[0].args) {
            Some(j) => seq![
                StreamEvent::ToolInputComplete {
                    tool_call_id: st[0].id,
                    tool_name: st[0].name,
                    input: j,
                },
            ],
            None => Seq::empty(),
        }) + finish_events(st.drop_first())
    }
}

/// The accumulator's transition on one action.
pub open spec fn action_step(st: Seq<AccEntry>, a: LineAction) -> (Seq<AccEntry>, Seq<
    StreamEvent,
>) {
    match a {
        LineAction::Text { delta } => (st, seq![StreamEvent::TextDelta { delta }]),
        LineAction::Fragment { id, name, args } => frag_step(st, id, name, args),
        LineAction::FinishSignal => (st, finish_events(st)),
    }
}

pub open spec fn run_actions(st: Seq<AccEntry>, acts: Seq<LineAction>) -> (Seq<AccEntry>, Seq<
    StreamEvent,
>)
    decreases acts.len(),
{
    if acts.len() == 0 {
        (st, Seq::empty())
    } else {
        let first = action_step(st, acts[0]);
        let rest = run_actions(first.0, acts.drop_first());
        (rest.0, first.1 + rest.1)
    }
}

pub open spec fn run_lines(st: Seq<AccEntry>, lines: Seq<Seq<u8>>) -> (Seq<AccEntry>, Seq<
    StreamEvent,
>)
    decreases lines.len(),
{
    if lines.len() == 0 {
        (st, Seq::empty())
    } else {
        let first = run_actions(st, line_actions(lines[0]));
        let rest = run_lines(first.0, lines.drop_first());
        (rest.0, first.1 + rest.1)
    }
}

/// The accumulator state after decoding a whole byte stream.
pub open spec fn stream_state(input: Seq<u8>) -> Seq<AccEntry> {
    run_lines(Seq::empty(), complete_lines(input)).0
}

/// Every event the decoder derives from a whole byte stream, in order.
pub open spec fn stream_events(input: Seq<u8>) -> Seq<StreamEvent> {
    run_lines(Seq::empty(), complete_lines(input)).1
}

// ---------------------------------------------------------------------------
// Fold lemmas.
// ---------------------------------------------------------------------------

pub proof fn lemma_tool_call_actions_append(a: Seq<Json>, b: Seq<Json>)
    ensures
        tool_call_actions(a + b) == tool_call_actions(a) + tool_call_actions(b),
    decreases a.len(),
{
    if a.len() == 0 {
        assert(a + b =~= b);
        assert(tool_call_actions(a) + tool_call_actions(b) =~= tool_call_actions(b));
    } else {
        assert((a + b).drop_first() =~= a.drop_first() + b);
        lemma_tool_call_actions_append(a.drop_first(), b);
        assert((a + b)[0] == a[0]);
        assert(frag_actions(a[0]) + (tool_call_actions(a.drop_first()) + tool_call_actions(b))
            =~= (frag_actions(a[0]) + tool_call_actions(a.drop_first())) + tool_call_actions(b));
    }
}

pub proof fn lemma_finish_events_append(a: Seq<AccEntry>, b: Seq<AccEntry>)
    ensures
        finish_events(a + b) == finish_events(a) + finish_events(b),
    decreases a.len(),
{
    if a.len() == 0 {
        assert(a + b =~= b);
        assert(finish_events(a) + finish_events(b) =~= finish_events(b));
    } else {
        assert((a + b).drop_first() =~= a.drop_first() + b);
        lemma_finish_events_append(a.drop_first(), b);
        assert((a + b)[0] == a[0]);
        let h = match json_of(a[0].args) {
            Some(j) => seq![
                StreamEvent::ToolInputComplete {
                    tool_call_id: a[0].id,
                    tool_name: a[0].name,
                    input: j,
                },
            ],
            None => Seq::<StreamEvent>::empty(),
        };
        assert(h + (finish_events(a.drop_first()) + finish_events(b)) =~= (h + finish_events(
            a.drop_first(),
        )) + finish_events(b));
    }
}

pub proof fn lemma_run_actions_append(st: Seq<AccEntry>, a: Seq<LineAction>, b: Seq<LineAction>)
    ensures
        run_actions(st, a + b).0 == run_actions(run_actions(st, a).0, b).0,
        run_actions(st, a + b).1 == run_actions(st, a).1 + run_actions(
            run_actions(st, a).0,
            b,
        ).1,
    decreases a.len(),
{
    if a.len() == 0 {
        assert(a + b =~= b);
        assert(run_actions(st, a).0 == st);
        assert(run_actions(st, a).1 + run_actions(st, b).1 =~= run_actions(st, b).1);
    } else {
        assert((a + b).drop_first() =~= a.drop_first() + b);
        assert((a + b)[0] == a[0]);
        let step = action_step(st, a[0]);
        lemma_run_actions_append(step.0, a.drop_first(), b);
        assert(step.1 + (run_actions(step.0, a.drop_first()).1 + run_actions(
            run_actions(step.0, a.drop_first()).0,
            b,
        ).1) =~= (step.1 + run_actions(step.0, a.drop_first()).1) + run_actions(
            run_actions(step.0, a.drop_first()).0,
            b,
        ).1);
    }
}

pub proof fn lemma_run_lines_append(st: Seq<AccEntry>, a: Seq<Seq<u8>>, b: Seq<Seq<u8>>)
    ensures
        run_lines(st, a + b).0 == run_lines(run_lines(st, a).0, b).0,
        run_lines(st, a + b).1 == run_lines(st, a).1 + run_lines(run_lines(st, a).0, b).1,
    decreases a.len(),
{
    if a.len() == 0 {
        assert(a + b =~= b);
        assert(run_lines(st, a).1 + run_lines(st, b).1 =~= run_lines(st, b).1);
    } else {
        assert((a + b).drop_first() =~= a.drop_first() + b);
        assert((a + b)[0] == a[0]);
        let step = run_actions(st, line_actions(a[0]));
        lemma_run_lines_append(step.0, a.drop_first(), b);
        assert(step.1 + (run_lines(step.0, a.drop_first()).1 + run_lines(
            run_lines(step.0, a.drop_first()).0,
            b,
        ).1) =~= (step.1 + run_lines(step.0, a.drop_first()).1) + run_lines(
            run_lines(step.0, a.drop_first()).0,
            b,
        ).1);
    }
}

// ---------------------------------------------------------------------------
// Extraction of actions from a parsed payload.
// ---------------------------------------------------------------------------

#[verifier::loop_isolation(false)]
fn push_frag(out: &mut Vec<LineAction>, tc: &Json)
    ensures
        final(out)@ == old(out)@ + frag_actions(*tc),
{
    proof {
        assert(old(out)@ + Seq::<LineAction>::empty() =~= old(out)@);
    }
    match tc.get("id") {
        Some(xv) => match xv {
            Json::Str(id) => {
                match tc.get("function") {
                    Some(f) => match f {
                        Json::Obj(_) => {
                            let name = match f.get("name") {
                                Some(nv) => match nv {
                                    Json::Str(n) => Some(n.clone()),
                                    _ => None,
                                },
                                None => None,
                            };
                            let args = match f.get("arguments") {
                                Some(av) => match av {
                                    Json::Str(a) => Some(a.clone()),
                                    _ => None,
                                },
                                None => None,
                            };
                            out.push(LineAction::Fragment { id: id.clone(), name, args });
                        },
                        _ => {},
                    },
                    None => {},
                }
            },
            _ => {},
        },
        None => {},
    }
}

proof fn lemma_tca_snoc(s: Seq<Json>, k: int)
    requires
        0 <= k < s.len(),
    ensures
        tool_call_actions(s.take(k + 1)) == tool_call_actions(s.take(k)) + frag_actions(s[k]),
{
    assert(s.take(k + 1) =~= s.take(k) + seq![s[k]]);
    lemma_tool_call_actions_append(s.take(k), seq![s[k]]);
    assert(seq![s[k]].drop_first() =~= Seq::<Json>::empty());
    assert(tool_call_actions(seq![s[k]].drop_first()) == Seq::<LineAction>::empty());
    assert(frag_actions(s[k]) + Seq::<LineAction>::empty() =~= frag_actions(s[k]));
    assert(tool_call_actions(seq![s[k]]) =~= frag_actions(s[k]));
}

/// Derive the actions of one parsed SSE payload.
#[verifier::loop_isolation(false)]
fn extract_actions(j: &Json) -> (r: Vec<LineAction>)
    ensures
        r@ == json_actions(*j),
{
    let mut out: Vec<LineAction> = Vec::new();
    match j.get("choices") {
        Some(cv) => match cv {
            Json::Arr(cs) => {
                if cs.len() > 0 {
                    let c0 = &cs[0];
                    match c0.get("delta") {
                        Some(d) => {
                            match d.get("content") {
                                Some(x) => match x {
                                    Json::Str(s) => {
                                        if !s.as_str().is_empty() {
                                            out.push(LineAction::Text { delta: s.clone() });
                                        }
                                    },
                                    _ => {},
                                },
                                None => {},
                            }
                            assert(out@ =~= content_actions(*d));
                            match d.get("tool_calls") {
                                Some(tv) => match tv {
                                    Json::Arr(tcs) => {
                                        let n = tcs.len();
                                        let mut k: usize = 0;
                                        proof {
                                            assert(tcs@.take(0) =~= Seq::<Json>::empty());
                                        }
                                        while k < n
                                            invariant
                                                k <= n,
                                                out@ == content_actions(*d)
                                                    + tool_call_actions(tcs@.take(k as int)),
                                            decreases n - k,
                                        {
                                            push_frag(&mut out, &tcs[k]);
                                            proof {
                                                lemma_tca_snoc(tcs@, k as int);
                                            }
                                            k += 1;
                                        }
                                        proof {
                                            assert(tcs@.take(n as int) =~= tcs@);
                                        }
                                    },
                                    _ => {},
                                },
                                None => {},
                            }
                            assert(out@ == delta_actions(cs@[0]));
                        },
                        None => {},
                    }
                    assert(out@ =~= delta_actions(cs@[0]));
                    match c0.get("finish_reason") {
                        Some(x) => match x {
                            Json::Str(s) => {
                                if str_eq(s.as_str(), "stop") || str_eq(s.as_str(), "tool_calls") {
                                    out.push(LineAction::FinishSignal);
                                }
                            },
                            _ => {},
                        },
                        None => {},
                    }
                    assert(out@ =~= delta_actions(cs@[0]) + finish_sig(cs@[0]));
                }
            },
            _ => {},
        },
        None => {},
    }
    assert(out@ =~= json_actions(*j));
    out
}

// ---------------------------------------------------------------------------
// The accumulator and its transitions.
// ---------------------------------------------------------------------------

/// Executable counterpart of `AccEntry`: the argument text is a `String`.
pub struct ToolEntry {
    pub id: String,
    pub name: String,
    pub args: String,
}

pub open spec fn entry_view(e: ToolEntry) -> AccEntry {
    AccEntry { id: e.id, name: e.name, args: e.args@ }
}

pub open spec fn entries_view(s: Seq<ToolEntry>) -> Seq<AccEntry> {
    s.map_values(|e: ToolEntry| entry_view(e))
}

#[verifier::loop_isolation(false)]
fn find_entry(entries: &Vec<ToolEntry>, id: &str) -> (r: Option<usize>)
    ensures
        match r {
            Some(k) => k < entries@.len() && entries@[k as int].id@ == id@,
            None => !has_entry(entries_view(entries@), id@),
        },
{
    let n = entries.len();
    let mut i: usize = 0;
    while i < n
        invariant
            i <= n,
            forall|j: int| 0 <= j < i ==> entries@[j].id@ != id@,
        decreases n - i,
    {
        if str_eq(entries[i].id.as_str(), id) {
            return Some(i);
        }
        i += 1;
    }
    proof {
        if has_entry(entries_view(entries@), id@) {
            let k = choose|k: int|
                0 <= k < entries_view(entries@).len() && entries_view(entries@)[k].id@ == id@;
            assert(entries@[k].id@ == id@);
        }
    }
    None
}

/// Apply one action to the tool-call table, appending the derived events.
#[verifier::loop_isolation(false)]
fn apply_action(entries: &mut Vec<ToolEntry>, a: LineAction, out: &mut Vec<StreamEvent>)
    requires
        unique_ids(entries_view(old(entries)@)),
    ensures
        ({
            let step = action_step(entries_view(old(entries)@), a);
            &&& entries_view(final(entries)@) == step.0
            &&& final(out)@ == old(out)@ + step.1
            &&& unique_ids(entries_view(final(entries)@))
        }),
{
    proof {
        assert(old(out)@ + Seq::<StreamEvent>::empty() =~= old(out)@);
    }
    match a {
        LineAction::Text { delta } => {
            out.push(StreamEvent::TextDelta { delta });
        },
        LineAction::Fragment { id, name, args } => {
            let ghost st0 = entries_view(entries@);
            let ghost step = frag_step(st0, id, name, args);
            let ghost st1 = if name is Some && !has_entry(st0, id@) {
                st0.push(AccEntry { id: id, name: name->0, args: Seq::empty() })
            } else {
                st0
            };
            match &name {
                Some(n) => {
                    match find_entry(entries, id.as_str()) {
                        Some(k) => {
                            proof {
                                assert(entries_view(entries@)[k as int].id@ == id@);
                                assert(has_entry(st0, id@));
                            }
                        },
                        None => {
                            entries.push(
                                ToolEntry { id: id.clone(), name: n.clone(), args: String::new() },
                            );
                            proof {
                                assert(entries_view(entries@) =~= st0.push(
                                    AccEntry { id: id, name: name->0, args: Seq::empty() },
                                ));
                            }
                        },
                    }
                    out.push(
                        StreamEvent::ToolCallStart { tool_call_id: id.clone(), tool_name: n.clone() },
                    );
                },
                None => {},
            }
            proof {
                assert(entries_view(entries@) == st1);
                assert(unique_ids(st1)) by {
                    if name is Some && !has_entry(st0, id@) {
                        assert(forall|i: int| 0 <= i < st0.len() ==> st0[i].id@ != id@);
                    }
                }
            }
            match &args {
                Some(f) => {
                    match find_entry(entries, id.as_str()) {
                        Some(k) => {
                            let ghost pre = entries@;
                            let e = entries.remove(k);
                            let mut newargs = e.args;
                            newargs.append(f.as_str());
                            let e2 = ToolEntry { id: e.id, name: e.name, args: newargs };
                            entries.insert(k, e2);
                            proof {
                                assert(entries_view(pre)[k as int].id@ == id@);
                                assert(has_entry(st1, id@));
                                assert(e == pre[k as int]);
                                assert(entries@ =~= pre.update(k as int, e2));
                                assert forall|j: int|
                                    0 <= j < entries@.len() implies entry_view(entries@[j])
                                    == append_entry_args(st1, id@, f@)[j] by {
                                    if j == k {
                                        assert(entries@[j] == e2);
                                        assert(st1[j].id@ == id@);
                                    } else {
                                        assert(entries@[j] == pre[j]);
                                        assert(st1[j] == entry_view(pre[j]));
                                        assert(st1[j].id@ != id@);
                                    }
                                }
                                assert(entries_view(entries@) =~= append_entry_args(st1, id@, f@));
                                assert(forall|i: int|
                                    0 <= i < st1.len() ==> entries_view(entries@)[i].id@
                                        == st1[i].id@);
                                assert(unique_ids(entries_view(entries@)));
                            }
                        },
                        None => {
                            proof {
                                assert(!has_entry(st1, id@));
                            }
                        },
                    }
                    out.push(StreamEvent::ToolInputDelta { tool_call_id: id, delta: f.clone() });
                },
                None => {},
            }
            proof {
                assert(entries_view(entries@) == step.0);
                assert(out@ =~= old(out)@ + step.1);
            }
        },
        LineAction::FinishSignal => {
            let ghost st0 = entries_view(entries@);
            let n = entries.len();
            let mut k: usize = 0;
            proof {
                assert(st0.take(0) =~= Seq::<AccEntry>::empty());
                assert(out@ + Seq::<StreamEvent>::empty() =~= out@);
            }
            while k < n
                invariant
                    k <= n,
                    n == entries@.len(),
                    entries@ == old(entries)@,
                    out@ == old(out)@ + finish_events(st0.take(k as int)),
                decreases n - k,
            {
                let parsed = parse_json(entries[k].args.as_str());
                let ghost ev = entry_view(entries@[k as int]);
                match parsed {
                    Some(jv) => {
                        out.push(
                            StreamEvent::ToolInputComplete {
                                tool_call_id: entries[k].id.clone(),
                                tool_name: entries[k].name.clone(),
                                input: jv,
                            },
                        );
                    },
                    None => {},
                }
                proof {
                    assert(st0.take(k + 1) =~= st0.take(k as int) + seq![ev]);
                    lemma_finish_events_append(st0.take(k as int), seq![ev]);
                    assert(seq![ev].drop_first() =~= Seq::<AccEntry>::empty());
                    let h = match json_of(ev.args) {
                        Some(j) => seq![
                            StreamEvent::ToolInputComplete {
                                tool_call_id: ev.id,
                                tool_name: ev.name,
                                input: j,
                            },
                        ],
                        None => Seq::<StreamEvent>::empty(),
                    };
                    assert(h + Seq::<StreamEvent>::empty() =~= h);
                    assert(seq![ev][0] == ev);
                    assert(finish_events(Seq::<AccEntry>::empty()) == Seq::<StreamEvent>::empty());
                    assert(finish_events(seq![ev].drop_first()) == Seq::<StreamEvent>::empty());
                    assert(finish_events(seq![ev]) == h);
                    assert(out@ =~= old(out)@ + finish_events(st0.take(k + 1)));
                }
                k += 1;
            }
            proof {
                assert(st0.take(n as int) =~= st0);
            }
        },
    }
}

// ---------------------------------------------------------------------------
// One line, end to end.
// ---------------------------------------------------------------------------

/// Decode one raw line and apply everything it asks to the table.
#[verifier::loop_isolation(false)]
fn process_line(entries: &mut Vec<ToolEntry>, line: &Vec<u8>, out: &mut Vec<StreamEvent>)
    requires
        unique_ids(entries_view(old(entries)@)),
    ensures
        ({
            let step = run_actions(entries_view(old(entries)@), line_actions(line@));
            &&& entries_view(final(entries)@) == step.0
            &&& final(out)@ == old(out)@ + step.1
            &&& unique_ids(entries_view(final(entries)@))
        }),
{
    proof {
        assert(old(out)@ + Seq::<StreamEvent>::empty() =~= old(out)@);
    }
    let s = lossy_decode(line.as_slice());
    let n = s.as_str().unicode_len();
    let mut lo: usize = 0;
    while lo < n && is_ws(s.as_str().get_char(lo))
        invariant
            lo <= n,
            n == s@.len(),
            forall|j: int| 0 <= j < lo ==> is_ws_char(s@[j]),
        decreases n - lo,
    {
        lo += 1;
    }
    let mut hi: usize = n;
    while hi > lo && is_ws(s.as_str().get_char(hi - 1))
        invariant
            lo <= hi <= n,
            lo < n ==> lo < hi,
            forall|j: int| hi <= j < n ==> is_ws_char(s@[j]),
        decreases hi,
    {
        hi -= 1;
    }
    proof {
        lemma_trim_subrange(s@, lo as int, hi as int);
    }
    if lo == hi {
        proof {
            assert(trim(lossy_utf8(line@)).len() == 0);
        }
        return ;
    }
    let t = s.as_str().substring_char(lo, hi);
    proof {
        assert(t@ == trim(lossy_utf8(line@)));
    }
    if str_eq(t, "data: [DONE]") {
        return ;
    }
    let tn = t.unicode_len();
    if tn < 6 {
        return ;
    }
    let p = t.substring_char(0, 6);
    proof {
        assert(p@ =~= t@.take(6));
    }
    if !str_eq(p, "data: ") {
        return ;
    }
    let data = t.substring_char(6, tn);
    proof {
        assert(data@ =~= t@.skip(6));
        assert(line_data(line@) == Some(data@));
    }
    let parsed = parse_json(data);
    match parsed {
        None => {
            return ;
        },
        Some(jv) => {
            let mut acts = extract_actions(&jv);
            let ghost full = json_actions(jv);
            let ghost st0 = entries_view(entries@);
            proof {
                assert(line_actions(line@) == full);
            }
            while acts.len() > 0
                invariant
                    unique_ids(entries_view(entries@)),
                    run_actions(entries_view(entries@), acts@).0 == run_actions(st0, full).0,
                    out@ + run_actions(entries_view(entries@), acts@).1 == old(out)@
                        + run_actions(st0, full).1,
                decreases acts@.len(),
            {
                let ghost cur = entries_view(entries@);
                let ghost pending = acts@;
                let a = acts.remove(0);
                proof {
                    assert(acts@ =~= pending.drop_first());
                    assert(a == pending[0]);
                }
                let ghost step = action_step(cur, a);
                let ghost outpre = out@;
                apply_action(entries, a, out);
                proof {
                    assert(run_actions(cur, pending).0 == run_actions(step.0, pending.drop_first()).0);
                    assert(run_actions(cur, pending).1 == step.1 + run_actions(
                        step.0,
                        pending.drop_first(),
                    ).1);
                    assert((outpre + step.1) + run_actions(step.0, acts@).1 =~= outpre + (step.1
                        + run_actions(step.0, acts@).1));
                }
            }
            proof {
                assert(acts@.len() == 0);
                assert(run_actions(entries_view(entries@), acts@).0 == entries_view(entries@));
                assert(run_actions(entries_view(entries@), acts@).1 == Seq::<StreamEvent>::empty());
                assert(out@ + Seq::<StreamEvent>::empty() =~= out@);
            }
        },
    }
}

// ---------------------------------------------------------------------------
// The streaming session.
// ---------------------------------------------------------------------------

/// Decoder state for one chat stream: the unterminated tail of the byte
/// stream and the tool-call table, with the whole input as ghost history.
pub struct StreamSession {
    buf: Vec<u8>,
    entries: Vec<ToolEntry>,
    fed: Ghost<Seq<u8>>,
}

impl StreamSession {
    /// Every byte fed so far.
    pub closed spec fn input(self) -> Seq<u8> {
        self.fed@
    }

    pub closed spec fn wf(self) -> bool {
        &&& !has_nl(self.buf@)
        &&& self.buf@ == line_rest(self.fed@)
        &&& entries_view(self.entries@) == stream_state(self.fed@)
        &&& unique_ids(entries_view(self.entries@))
    }

    pub fn new() -> (r: StreamSession)
        ensures
            r.wf(),
            r.input() == Seq::<u8>::empty(),
    {
        let r = StreamSession { buf: Vec::new(), entries: Vec::new(), fed: Ghost(Seq::empty()) };
        proof {
            assert(!has_nl(Seq::<u8>::empty()));
            assert(line_rest(Seq::<u8>::empty()) == Seq::<u8>::empty());
            assert(complete_lines(Seq::<u8>::empty()) == Seq::<Seq<u8>>::empty());
            assert(entries_view(Seq::<ToolEntry>::empty()) =~= Seq::<AccEntry>::empty());
            assert(stream_state(Seq::<u8>::empty()) == Seq::<AccEntry>::empty());
        }
        r
    }

    /// Feed one chunk of the response body, in whatever way the transport
    /// cut it; the events returned are exactly those the whole input
    /// determines beyond the ones already returned.
    #[verifier::loop_isolation(false)]
    pub fn feed(&mut self, chunk: &[u8]) -> (out: Vec<StreamEvent>)
        requires
            old(self).wf(),
        ensures
            final(self).wf(),
            final(self).input() == old(self).input() + chunk@,
            stream_events(old(self).input()) + out@ == stream_events(
                old(self).input() + chunk@,
            ),
    {
        let ghost fed0 = self.fed@;
        let ghost st_glob = stream_state(fed0);
        let cn = chunk.len();
        let mut ci: usize = 0;
        while ci < cn
            invariant
                ci <= cn,
                cn == chunk@.len(),
                self.buf@ == line_rest(fed0) + chunk@.take(ci as int),
                self.entries@ == old(self).entries@,
                self.fed@ == fed0,
            decreases cn - ci,
        {
            let ghost bufpre = self.buf@;
            self.buf.push(chunk[ci]);
            proof {
                assert(self.buf@ =~= line_rest(fed0) + chunk@.take(ci + 1));
            }
            ci += 1;
        }
        proof {
            assert(chunk@.take(cn as int) =~= chunk@);
        }
        self.fed = Ghost(fed0 + chunk@);
        let ghost b0 = self.buf@;
        proof {
            assert(b0 == line_rest(fed0) + chunk@);
            lemma_lines_append(fed0, chunk@);
            lemma_run_lines_append(
                Seq::empty(),
                complete_lines(fed0),
                complete_lines(line_rest(fed0) + chunk@),
            );
            assert(stream_state(fed0 + chunk@) == run_lines(st_glob, complete_lines(b0)).0);
            assert(stream_events(fed0 + chunk@) == stream_events(fed0) + run_lines(
                st_glob,
                complete_lines(b0),
            ).1);
        }
        let mut out: Vec<StreamEvent> = Vec::new();
        let mut done = false;
        proof {
            assert(out@ + run_lines(entries_view(self.entries@), complete_lines(self.buf@)).1
                =~= run_lines(st_glob, complete_lines(b0)).1);
        }
        while !done
            invariant
                self.fed@ == fed0 + chunk@,
                unique_ids(entries_view(self.entries@)),
                run_lines(entries_view(self.entries@), complete_lines(self.buf@)).0 == run_lines(
                    st_glob,
                    complete_lines(b0),
                ).0,
                out@ + run_lines(entries_view(self.entries@), complete_lines(self.buf@)).1
                    == run_lines(st_glob, complete_lines(b0)).1,
                line_rest(self.buf@) == line_rest(b0),
                done ==> !has_nl(self.buf@),
            decreases self.buf@.len() + (if done { 0int } else { 1int }),
        {
            let ghost prebuf = self.buf@;
            let line_opt = take_line(&mut self.buf);
            match line_opt {
                None => {
                    done = true;
                },
                Some(line) => {
                    let ghost cur = entries_view(self.entries@);
                    let ghost step = run_actions(cur, line_actions(line@));
                    let ghost outpre = out@;
                    proof {
                        lemma_first_nl(prebuf);
                        assert(complete_lines(prebuf) == seq![line@] + complete_lines(self.buf@));
                        assert((seq![line@] + complete_lines(self.buf@)).drop_first()
                            =~= complete_lines(self.buf@));
                        assert((seq![line@] + complete_lines(self.buf@))[0] == line@);
                        assert(run_lines(cur, complete_lines(prebuf)).0 == run_lines(
                            step.0,
                            complete_lines(self.buf@),
                        ).0);
                        assert(run_lines(cur, complete_lines(prebuf)).1 == step.1 + run_lines(
                            step.0,
                            complete_lines(self.buf@),
                        ).1);
                    }
                    process_line(&mut self.entries, &line, &mut out);
                    proof {
                        assert((outpre + step.1) + run_lines(
                            entries_view(self.entries@),
                            complete_lines(self.buf@),
                        ).1 =~= outpre + (step.1 + run_lines(
                            entries_view(self.entries@),
                            complete_lines(self.buf@),
                        ).1));
                    }
                },
            }
        }
        proof {
            assert(complete_lines(self.buf@) == Seq::<Seq<u8>>::empty());
            assert(run_lines(entries_view(self.entries@), complete_lines(self.buf@)).0
                == entries_view(self.entries@));
            assert(run_lines(entries_view(self.entries@), complete_lines(self.buf@)).1
                == Seq::<StreamEvent>::empty());
            assert(out@ + Seq::<StreamEvent>::empty() =~= out@);
            assert(line_rest(b0) == line_rest(fed0 + chunk@));
        }
        out
    }
}

// ---------------------------------------------------------------------------
// A whole body at once, and the decoder's laws.
// ---------------------------------------------------------------------------

/// The concatenation of a sequence of byte chunks.
pub open spec fn concat_chunks(cs: Seq<Seq<u8>>) -> Seq<u8>
    decreases cs.len(),
{
    if cs.len() == 0 {
        Seq::empty()
    } else {
        concat_chunks(cs.drop_last()) + cs.last()
    }
}

/// Decode a whole response body given as chunks: exactly one Start, then
/// the events the concatenated bytes determine, then exactly one Finish.
#[verifier::loop_isolation(false)]
pub fn decode_sse_body(chunks: &Vec<Vec<u8>>) -> (out: Vec<StreamEvent>)
    ensures
        out@ == seq![StreamEvent::Start] + stream_events(
            concat_chunks(chunks@.map_values(|c: Vec<u8>| c@)),
        ) + seq![StreamEvent::Finish { usage: None }],
{
    let ghost all = chunks@.map_values(|c: Vec<u8>| c@);
    let mut out: Vec<StreamEvent> = Vec::new();
    out.push(StreamEvent::Start);
    let mut sess = StreamSession::new();
    proof {
        assert(all.take(0) =~= Seq::<Seq<u8>>::empty());
        assert(complete_lines(Seq::<u8>::empty()) == Seq::<Seq<u8>>::empty());
        assert(stream_events(Seq::<u8>::empty()) == Seq::<StreamEvent>::empty());
        assert(seq![StreamEvent::Start] + Seq::<StreamEvent>::empty() =~= seq![
            StreamEvent::Start,
        ]);
    }
    let n = chunks.len();
    let mut i: usize = 0;
    while i < n
        invariant
            i <= n,
            n == chunks@.len(),
            sess.wf(),
            sess.input() == concat_chunks(all.take(i as int)),
            out@ == seq![StreamEvent::Start] + stream_events(sess.input()),
        decreases n - i,
    {
        let ghost fed0 = sess.input();
        let mut evs = sess.feed(chunks[i].as_slice());
        let ghost evsv = evs@;
        out.append(&mut evs);
        proof {
            assert(all.take(i + 1).drop_last() =~= all.take(i as int));
            assert(all.take(i + 1).last() == chunks@[i as int]@);
            assert(concat_chunks(all.take(i + 1)) == fed0 + chunks@[i as int]@);
            assert((seq![StreamEvent::Start] + stream_events(fed0)) + evsv =~= seq![
                StreamEvent::Start,
            ] + (stream_events(fed0) + evsv));
        }
        i += 1;
    }
    proof {
        assert(all.take(n as int) =~= all);
    }
    out.push(StreamEvent::Finish { usage: None });
    out
}

/// Looser bytes never rewrite history: the events of `s + t` begin with
/// the events of `s`, so a body yields the same ordered events however it
/// is cut into chunks.
pub proof fn lemma_stream_events_prefix(s: Seq<u8>, t: Seq<u8>)
    ensures
        stream_events(s + t).len() >= stream_events(s).len(),
        stream_events(s + t).take(stream_events(s).len() as int) == stream_events(s),
{
    lemma_lines_append(s, t);
    lemma_run_lines_append(
        Seq::empty(),
        complete_lines(s),
        complete_lines(line_rest(s) + t),
    );
    let extra = run_lines(stream_state(s), complete_lines(line_rest(s) + t)).1;
    assert(stream_events(s + t) == stream_events(s) + extra);
    assert((stream_events(s) + extra).take(stream_events(s).len() as int) =~= stream_events(s));
}

/// The termination sentinel line and blank lines produce no event and
/// change no accumulator state.
pub proof fn lemma_silent_line(st: Seq<AccEntry>, line: Seq<u8>)
    requires
        trim(lossy_utf8(line)).len() == 0 || trim(lossy_utf8(line)) == "data: [DONE]"@,
    ensures
        run_actions(st, line_actions(line)).0 == st,
        run_actions(st, line_actions(line)).1 == Seq::<StreamEvent>::empty(),
{
    assert(line_data(line) is None);
    assert(line_actions(line) == Seq::<LineAction>::empty());
}

/// Does this event complete the tool call with the given id?
pub open spec fn completes_id(ev: StreamEvent, id: Seq<char>) -> bool {
    ev matches StreamEvent::ToolInputComplete { tool_call_id, .. } && tool_call_id@ == id
}

proof fn lemma_finish_events_no_id(st: Seq<AccEntry>, id: Seq<char>)
    requires
        forall|k: int| 0 <= k < st.len() && st[k].id@ == id ==> json_of(st[k].args) is None,
    ensures
        forall|i: int|
            0 <= i < finish_events(st).len() ==> !completes_id(finish_events(st)[i], id),
    decreases st.len(),
{
    if st.len() > 0 {
        assert(st[0] == st[0]);
        assert forall|k: int|
            0 <= k < st.drop_first().len() && st.drop_first()[k].id@ == id implies json_of(
            st.drop_first()[k].args,
        ) is None by {
            assert(st.drop_first()[k] == st[k + 1]);
        }
        lemma_finish_events_no_id(st.drop_first(), id);
        let h = match json_of(st[0].args) {
            Some(j) => seq![
                StreamEvent::ToolInputComplete {
                    tool_call_id: st[0].id,
                    tool_name: st[0].name,
                    input: j,
                },
            ],
            None => Seq::<StreamEvent>::empty(),
        };
        assert(finish_events(st) == h + finish_events(st.drop_first()));
        assert forall|i: int|
            0 <= i < finish_events(st).len() implies !completes_id(finish_events(st)[i], id) by {
            if i < h.len() {
                assert(st[0].id@ != id);
            } else {
                assert(finish_events(st)[i] == finish_events(st.drop_first())[i - h.len()]);
            }
        }
    }
}

/// An entry whose accumulated text is not JSON at finish time is dropped
/// in silence: the finish batch holds no completion for its id, and
/// nothing stands in its place.
pub proof fn lemma_invalid_args_never_completed(st: Seq<AccEntry>, k: int)
    requires
        0 <= k < st.len(),
        unique_ids(st),
        json_of(st[k].args) is None,
    ensures
        forall|i: int|
            0 <= i < finish_events(st).len() ==> !completes_id(
                finish_events(st)[i],
                st[k].id@,
            ),
{
    assert forall|j: int|
        0 <= j < st.len() && st[j].id@ == st[k].id@ implies json_of(st[j].args) is None by {
        if j < k {
            assert(st[j].id@ != st[k].id@);
        } else if j > k {
            assert(st[k].id@ != st[j].id@);
        }
    }
    lemma_finish_events_no_id(st, st[k].id@);
}

} // verus!
