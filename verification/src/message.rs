//! Conversation messages as the UI ships them, and their normalization
//! into flat provider-neutral role/content pairs.

use vstd::prelude::*;
use vstd::string::*;
use crate::json::Json;
use crate::text::str_eq;

verus! {

/// One part of a UI message. Only `Text` parts contribute to outbound
/// content; the other variants are preserved for forward compatibility.
#[derive(Debug, PartialEq)]
pub enum MessagePart {
    Text { text: String },
    File { url: String, media_type: Option<String> },
    ToolCall { tool_call_id: String, tool_name: String, input: Json },
    ToolResult { tool_call_id: String, tool_name: String, result: Json },
}

/// A message in the shape the UI sends.
#[derive(Debug, PartialEq)]
pub struct UIMessage {
    pub role: String,
    pub parts: Vec<MessagePart>,
}

/// The three accepted conversation roles.
#[derive(Debug, Clone, Copy, PartialEq, Eq, Structural)]
pub enum MessageRole {
    System,
    User,
    Assistant,
}

/// A normalized role/content pair, ready for a provider request.
#[derive(Debug, PartialEq)]
pub struct ChatMessage {
    pub role: MessageRole,
    pub content: String,
}

/// The views of the `Text` parts, in order.
pub open spec fn text_views(parts: Seq<MessagePart>) -> Seq<Seq<char>>
    decreases parts.len(),
{
    if parts.len() == 0 {
        Seq::empty()
    } else {
        (match parts[0] {
            MessagePart::Text { text } => seq![text@],
            _ => Seq::empty(),
        }) + text_views(parts.drop_first())
    }
}

/// The pieces joined with a single newline between consecutive pieces.
pub open spec fn join_nl(vs: Seq<Seq<char>>) -> Seq<char>
    decreases vs.len(),
{
    if vs.len() == 0 {
        Seq::empty()
    } else if vs.len() == 1 {
        vs[0]
    } else {
        vs[0] + seq!['\n'] + join_nl(vs.drop_first())
    }
}

/// The role a role string denotes; only these three are accepted.
pub open spec fn parse_role(r: Seq<char>) -> Option<MessageRole> {
    if r == "user"@ {
        Some(MessageRole::User)
    } else if r == "assistant"@ {
        Some(MessageRole::Assistant)
    } else if r == "system"@ {
        Some(MessageRole::System)
    } else {
        None
    }
}

/// The normalization of one message, where its role is accepted.
pub open spec fn norm_msg(m: UIMessage) -> (MessageRole, Seq<char>) {
    (parse_role(m.role@)->0, join_nl(text_views(m.parts@)))
}

/// Normalization of a whole conversation: the first unknown role is the
/// error; otherwise each message flattens to a role/content pair.
pub open spec fn spec_normalize(ms: Seq<UIMessage>) -> Result<
    Seq<(MessageRole, Seq<char>)>,
    Seq<char>,
>
    decreases ms.len(),
{
    if ms.len() == 0 {
        Ok(Seq::empty())
    } else {
        match parse_role(ms[0].role@) {
            None => Err("Unknown role: "@ + ms[0].role@),
            Some(ro) => match spec_normalize(ms.drop_first()) {
                Ok(rest) => Ok(seq![norm_msg(ms[0])] + rest),
                Err(e) => Err(e),
            },
        }
    }
}

proof fn lemma_text_views_snoc(parts: Seq<MessagePart>, i: int)
    requires
        0 <= i < parts.len(),
    ensures
        text_views(parts.take(i + 1)) == text_views(parts.take(i)) + (match parts[i] {
            MessagePart::Text { text } => seq![text@],
            _ => Seq::<Seq<char>>::empty(),
        }),
    decreases i,
{
    let h = (match parts[0] {
        MessagePart::Text { text } => seq![text@],
        _ => Seq::<Seq<char>>::empty(),
    });
    if i == 0 {
        assert(parts.take(0) =~= Seq::<MessagePart>::empty());
        assert(text_views(parts.take(0)) == Seq::<Seq<char>>::empty());
        assert(parts.take(1)[0] == parts[0]);
        assert(parts.take(1).drop_first() =~= Seq::<MessagePart>::empty());
        assert(text_views(parts.take(1)) =~= h);
        assert(Seq::<Seq<char>>::empty() + h =~= h);
    } else {
        lemma_text_views_snoc(parts.drop_first(), i - 1);
        assert(parts.take(i + 1)[0] == parts[0]);
        assert(parts.take(i)[0] == parts[0]);
        assert(parts.take(i + 1).drop_first() =~= parts.drop_first().take(i));
        assert(parts.take(i).drop_first() =~= parts.drop_first().take(i - 1));
        assert(parts.drop_first()[i - 1] == parts[i]);
        let t = (match parts[i] {
            MessagePart::Text { text } => seq![text@],
            _ => Seq::<Seq<char>>::empty(),
        });
        assert(text_views(parts.take(i + 1)) == h + (text_views(parts.drop_first().take(i - 1))
            + t));
        assert(h + (text_views(parts.drop_first().take(i - 1)) + t) =~= (h + text_views(
            parts.drop_first().take(i - 1),
        )) + t);
    }
}

proof fn lemma_join_nl_snoc(vs: Seq<Seq<char>>, v: Seq<char>)
    ensures
        join_nl(vs.push(v)) == if vs.len() == 0 {
            v
        } else {
            join_nl(vs) + seq!['\n'] + v
        },
    decreases vs.len(),
{
    if vs.len() == 0 {
        assert(vs.push(v)[0] == v);
    } else if vs.len() == 1 {
        assert(vs.push(v)[0] == vs[0]);
        assert(vs.push(v).drop_first() =~= seq![v]);
        assert(join_nl(seq![v]) == v);
    } else {
        lemma_join_nl_snoc(vs.drop_first(), v);
        assert(vs.push(v)[0] == vs[0]);
        assert(vs.push(v).drop_first() =~= vs.drop_first().push(v));
        assert(vs[0] + seq!['\n'] + (join_nl(vs.drop_first()) + seq!['\n'] + v) =~= (vs[0]
            + seq!['\n'] + join_nl(vs.drop_first())) + seq!['\n'] + v);
    }
}

/// Join the text of all `Text` parts with a newline separator, in order.
#[verifier::loop_isolation(false)]
pub fn join_text_parts(parts: &Vec<MessagePart>) -> (r: String)
    ensures
        r@ == join_nl(text_views(parts@)),
{
    let mut r = String::new();
    let mut any = false;
    let n = parts.len();
    let mut i: usize = 0;
    proof {
        assert(parts@.take(0) =~= Seq::<MessagePart>::empty());
        reveal_strlit("\n");
    }
    while i < n
        invariant
            i <= n,
            any <==> text_views(parts@.take(i as int)).len() > 0,
            r@ == join_nl(text_views(parts@.take(i as int))),
        decreases n - i,
    {
        proof {
            lemma_text_views_snoc(parts@, i as int);
        }
        match &parts[i] {
            MessagePart::Text { text } => {
                let ghost vs = text_views(parts@.take(i as int));
                proof {
                    assert(vs.push(text@) =~= text_views(parts@.take(i + 1)));
                    lemma_join_nl_snoc(vs, text@);
                }
                if any {
                    r.append("\n");
                }
                r.append(text.as_str());
                any = true;
            },
            _ => {},
        }
        i += 1;
    }
    proof {
        assert(parts@.take(n as int) =~= parts@);
    }
    r
}

proof fn lemma_normalize_skip(ms: Seq<UIMessage>, i: int)
    requires
        0 <= i <= ms.len(),
        forall|j: int| 0 <= j < i ==> parse_role(ms[j].role@) is Some,
    ensures
        spec_normalize(ms) == (match spec_normalize(ms.skip(i)) {
            Ok(rest) => Ok(
                Seq::new(i as nat, |j: int| norm_msg(ms[j])) + rest,
            ),
            Err(e) => Err::<Seq<(MessageRole, Seq<char>)>, Seq<char>>(e),
        }),
    decreases i,
{
    if i == 0 {
        assert(ms.skip(0) =~= ms);
        match spec_normalize(ms) {
            Ok(rest) => {
                assert(Seq::new(0, |j: int| norm_msg(ms[j])) + rest =~= rest);
            },
            Err(_) => {},
        }
    } else {
        lemma_normalize_skip(ms, i - 1);
        let tail = ms.skip(i - 1);
        assert(tail[0] == ms[i - 1]);
        assert(tail.drop_first() =~= ms.skip(i));
        assert(parse_role(tail[0].role@) is Some);
        match spec_normalize(ms.skip(i)) {
            Ok(rest) => {
                assert(spec_normalize(tail) == Ok::<Seq<(MessageRole, Seq<char>)>, Seq<char>>(
                    seq![norm_msg(ms[i - 1])] + rest,
                ));
                assert(Seq::new((i - 1) as nat, |j: int| norm_msg(ms[j])) + (seq![
                    norm_msg(ms[i - 1]),
                ] + rest) =~= Seq::new(i as nat, |j: int| norm_msg(ms[j])) + rest);
            },
            Err(e) => {
                assert(spec_normalize(tail) == Err::<Seq<(MessageRole, Seq<char>)>, Seq<char>>(e));
            },
        }
    }
}

/// Parse one role string.
fn parse_role_exec(role: &String) -> (r: Option<MessageRole>)
    ensures
        r == parse_role(role@),
{
    if str_eq(role.as_str(), "user") {
        Some(MessageRole::User)
    } else if str_eq(role.as_str(), "assistant") {
        Some(MessageRole::Assistant)
    } else if str_eq(role.as_str(), "system") {
        Some(MessageRole::System)
    } else {
        None
    }
}

/// Flatten UI messages into normalized role/content pairs; the first
/// message with an unknown role fails the whole conversion.
#[verifier::loop_isolation(false)]
pub fn convert_ui_messages_to_genai(ui_messages: Vec<UIMessage>) -> (r: Result<
    Vec<ChatMessage>,
    String,
>)
    ensures
        match r {
            Ok(ms) => {
                &&& spec_normalize(ui_messages@) matches Ok(sv)
                &&& ms@.len() == sv.len()
                &&& forall|i: int|
                    0 <= i < sv.len() ==> ms@[i].role == sv[i].0 && ms@[i].content@ == sv[i].1
            },
            Err(e) => spec_normalize(ui_messages@) matches Err(m) && e@ == m,
        },
{
    let ghost sv = spec_normalize(ui_messages@);
    let mut out: Vec<ChatMessage> = Vec::new();
    let n = ui_messages.len();
    let mut i: usize = 0;
    while i < n
        invariant
            i <= n,
            out@.len() == i,
            forall|j: int| 0 <= j < i ==> parse_role(ui_messages@[j].role@) is Some,
            forall|j: int|
                0 <= j < i ==> out@[j].role == norm_msg(ui_messages@[j]).0 && out@[j].content@
                    == norm_msg(ui_messages@[j]).1,
        decreases n - i,
    {
        let m = &ui_messages[i];
        match parse_role_exec(&m.role) {
            None => {
                proof {
                    lemma_normalize_skip(ui_messages@, i as int);
                    assert(ui_messages@.skip(i as int)[0] == ui_messages@[i as int]);
                }
                return Err("Unknown role: ".to_owned().concat(m.role.as_str()));
            },
            Some(ro) => {
                let content = join_text_parts(&m.parts);
                out.push(ChatMessage { role: ro, content });
            },
        }
        i += 1;
    }
    proof {
        lemma_normalize_skip(ui_messages@, n as int);
        assert(ui_messages@.skip(n as int) =~= Seq::<UIMessage>::empty());
        assert(spec_normalize(Seq::<UIMessage>::empty()) == Ok::<
            Seq<(MessageRole, Seq<char>)>,
            Seq<char>,
        >(Seq::empty()));
        let body = Seq::new(n as nat, |j: int| norm_msg(ui_messages@[j]));
        assert(body + Seq::<(MessageRole, Seq<char>)>::empty() =~= body);
        assert(spec_normalize(ui_messages@) == Ok::<Seq<(MessageRole, Seq<char>)>, Seq<char>>(
            body,
        ));
    }
    Ok(out)
}

pub open spec fn has_nl_char(s: Seq<char>) -> bool {
    exists|i: int| 0 <= i < s.len() && s[i] == '\n'
}

/// Index of the first newline character; `s.len()` if there is none.
pub open spec fn first_nl_char(s: Seq<char>) -> int
    decreases s.len(),
{
    if s.len() == 0 {
        0
    } else if s[0] == '\n' {
        0
    } else {
        1 + first_nl_char(s.drop_first())
    }
}

proof fn lemma_first_nl_char(s: Seq<char>)
    ensures
        0 <= first_nl_char(s) <= s.len(),
        has_nl_char(s) <==> first_nl_char(s) < s.len(),
        first_nl_char(s) < s.len() ==> s[first_nl_char(s)] == '\n',
        forall|j: int| 0 <= j < first_nl_char(s) ==> s[j] != '\n',
    decreases s.len(),
{
    if s.len() == 0 {
    } else if s[0] == '\n' {
        assert(has_nl_char(s));
    } else {
        lemma_first_nl_char(s.drop_first());
        let d = s.drop_first();
        assert(forall|j: int| 0 <= j < d.len() ==> d[j] == s[j + 1]);
        assert forall|j: int| 0 <= j < first_nl_char(s) implies s[j] != '\n' by {
            if j > 0 {
                assert(d[j - 1] != '\n');
            }
        }
        if has_nl_char(s) {
            let i = choose|i: int| 0 <= i < s.len() && s[i] == '\n';
            assert(i > 0);
            assert(d[i - 1] == '\n');
            assert(has_nl_char(d));
        }
        if has_nl_char(d) {
            let i = choose|i: int| 0 <= i < d.len() && d[i] == '\n';
            assert(s[i + 1] == '\n');
            assert(has_nl_char(s));
        }
    }
}

#[via_fn]
proof fn split_nl_decreases(s: Seq<char>) {
    lemma_first_nl_char(s);
}

/// Split a text at every newline, keeping empty pieces.
pub open spec fn split_nl(s: Seq<char>) -> Seq<Seq<char>>
    decreases s.len(),
    via split_nl_decreases
{
    if has_nl_char(s) {
        seq![s.take(first_nl_char(s))] + split_nl(s.skip(first_nl_char(s) + 1))
    } else {
        seq![s]
    }
}

/// Joining newline-free pieces with newlines and splitting the result at
/// newlines recovers exactly the pieces.
pub proof fn lemma_join_split_roundtrip(parts: Seq<Seq<char>>)
    requires
        parts.len() >= 1,
        forall|i: int| 0 <= i < parts.len() ==> !(#[trigger] parts[i]).contains('\n'),
    ensures
        split_nl(join_nl(parts)) == parts,
    decreases parts.len(),
{
    if parts.len() == 1 {
        let p0 = parts[0];
        assert(join_nl(parts) == p0);
        assert(!has_nl_char(p0)) by {
            if has_nl_char(p0) {
                let i = choose|i: int| 0 <= i < p0.len() && p0[i] == '\n';
                assert(p0.contains('\n'));
            }
        }
        assert(split_nl(p0) == seq![p0]);
        assert(seq![p0] =~= parts);
    } else {
        let s = join_nl(parts);
        let p0 = parts[0];
        let rest = parts.drop_first();
        let rj = join_nl(rest);
        assert(s == p0 + seq!['\n'] + rj);
        lemma_first_nl_char(s);
        assert(s[p0.len() as int] == '\n');
        assert(has_nl_char(s));
        assert forall|j: int| 0 <= j < p0.len() implies s[j] != '\n' by {
            assert(s[j] == p0[j]);
            if p0[j] == '\n' {
                assert(p0.contains('\n'));
            }
        }
        let f = first_nl_char(s);
        assert(f <= p0.len()) by {
            if f > p0.len() {
                assert(s[p0.len() as int] != '\n');
            }
        }
        assert(f >= p0.len());
        assert(s.take(f) =~= p0);
        assert(s.skip(f + 1) =~= rj);
        assert forall|i: int| 0 <= i < rest.len() implies !(#[trigger] rest[i]).contains('\n') by {
            assert(rest[i] == parts[i + 1]);
        }
        lemma_join_split_roundtrip(rest);
        assert(split_nl(s) == seq![p0] + rest);
        assert(seq![p0] + rest =~= parts);
    }
}

/// A conversation with an unknown role anywhere in it always fails
/// normalization.
pub proof fn lemma_unknown_role_fails(ms: Seq<UIMessage>, k: int)
    requires
        0 <= k < ms.len(),
        parse_role(ms[k].role@) is None,
    ensures
        spec_normalize(ms) is Err,
    decreases ms.len(),
{
    if k > 0 {
        if parse_role(ms[0].role@) is Some {
            assert(ms.drop_first()[k - 1] == ms[k]);
            lemma_unknown_role_fails(ms.drop_first(), k - 1);
        }
    }
}

} // verus!
