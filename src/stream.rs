//! The parser of a streamed chat-completion reply: server-sent-event lines
//! whose `data:` payloads carry JSON frames with incremental text.

use vstd::prelude::*;

use crate::json::{get_member, json_of, parse_json, member, Json};
use crate::text::{
    decode_lossy, same_text, split_at_char, split_on, starts_with, trim, trimmed, utf8_lossy,
};

verus! {

/// What the parser hands on to be shown, in order.
#[derive(Debug)]
pub enum Output {
    /// A piece of the reply, shown as it is.
    Fragment(String),
    /// The end of the reply: a line break.
    Newline,
}

/// The model of an [`Output`].
pub enum OutputView {
    Fragment(Seq<char>),
    Newline,
}

impl View for Output {
    type V = OutputView;

    open spec fn view(&self) -> OutputView {
        match self {
            Output::Fragment(s) => OutputView::Fragment(s@),
            Output::Newline => OutputView::Newline,
        }
    }
}

/// The failure to read a stream.
#[derive(Debug, PartialEq, Eq, Structural)]
pub enum StreamError {
    /// A `data:` payload that is neither the end marker nor one JSON value.
    MalformedPayload,
}

/// The prefix of a line that carries a payload.
pub open spec fn data_prefix() -> Seq<char> {
    seq!['d', 'a', 't', 'a', ':']
}

/// The payload that marks the end of the reply.
pub open spec fn done_marker() -> Seq<char> {
    seq!['[', 'D', 'O', 'N', 'E', ']']
}

/// Whether a trimmed line carries a payload.
pub open spec fn is_data_line(t: Seq<char>) -> bool {
    t.len() >= data_prefix().len() && t.subrange(0, data_prefix().len() as int) == data_prefix()
}

/// The payload of a trimmed line that carries one: what follows the prefix, trimmed.
pub open spec fn payload_of(t: Seq<char>) -> Seq<char> {
    trimmed(t.subrange(data_prefix().len() as int, t.len() as int))
}

/// The text that one choice of a frame contributes: the `content` string of its
/// `delta` object, where that object has members and the string is not empty.
pub open spec fn choice_content(choice: Json) -> Option<Seq<char>> {
    match member(choice, "delta"@) {
        Some(Json::Object(fields)) => if fields@.len() > 0 {
            match member(Json::Object(fields), "content"@) {
                Some(Json::Str(s)) => if s@.len() > 0 {
                    Some(s@)
                } else {
                    None
                },
                _ => None,
            }
        } else {
            None
        },
        _ => None,
    }
}

/// The text of the first choice at or after `i` that contributes any.
pub open spec fn first_content_from(choices: Seq<Json>, i: int) -> Option<Seq<char>>
    decreases choices.len() - i,
{
    if i < 0 || i >= choices.len() {
        None
    } else if choice_content(choices[i]) is Some {
        choice_content(choices[i])
    } else {
        first_content_from(choices, i + 1)
    }
}

/// The text that a frame contributes: that of its first contributing choice.
pub open spec fn frame_content(frame: Json) -> Option<Seq<char>> {
    match member(frame, "choices"@) {
        Some(Json::Array(choices)) => first_content_from(choices@, 0),
        _ => None,
    }
}

/// What one line of the stream gives: the outputs, or `None` where its payload
/// is malformed.
pub open spec fn line_step(line: Seq<char>) -> Option<Seq<OutputView>> {
    let t = trimmed(line);
    if !is_data_line(t) {
        Some(Seq::empty())
    } else if payload_of(t) == done_marker() {
        Some(seq![OutputView::Newline])
    } else {
        match json_of(payload_of(t)) {
            None => None,
            Some(frame) => match frame_content(frame) {
                Some(c) => Some(seq![OutputView::Fragment(c)]),
                None => Some(Seq::empty()),
            },
        }
    }
}

/// The outputs of `lines` read in order up to the first malformed one, and
/// whether none was malformed.
pub open spec fn lines_outputs(lines: Seq<Seq<char>>) -> (Seq<OutputView>, bool)
    decreases lines.len(),
{
    if lines.len() == 0 {
        (Seq::empty(), true)
    } else {
        let prev = lines_outputs(lines.drop_last());
        if !prev.1 {
            prev
        } else {
            match line_step(lines.last()) {
                None => (prev.0, false),
                Some(o) => (prev.0 + o, true),
            }
        }
    }
}

/// The outputs of a decoded chunk: its trimmed text, split into lines.
pub open spec fn chunk_outputs(chunk: Seq<char>) -> (Seq<OutputView>, bool) {
    if trimmed(chunk).len() == 0 {
        (Seq::empty(), true)
    } else {
        lines_outputs(split_on(trimmed(chunk), '\n'))
    }
}

/// The text of the fragments among `outs`, in order.
pub open spec fn fragments_text(outs: Seq<OutputView>) -> Seq<char>
    decreases outs.len(),
{
    if outs.len() == 0 {
        Seq::empty()
    } else {
        fragments_text(outs.drop_last()) + match outs.last() {
            OutputView::Fragment(s) => s,
            OutputView::Newline => Seq::empty(),
        }
    }
}

/// The view of a list of outputs.
pub open spec fn outputs_view(os: Seq<Output>) -> Seq<OutputView> {
    os.map_values(|o: Output| o@)
}

/// Returns the text that a parsed frame contributes, if any.
pub fn frame_fragment(frame: &Json) -> (r: Option<String>)
    ensures
        match r {
            Some(s) => frame_content(*frame) == Some(s@),
            None => frame_content(*frame) is None,
        },
{
    let choices = match get_member(frame, "choices") {
        Some(Json::Array(cs)) => cs,
        _ => return None,
    };
    let mut i: usize = 0;
    while i < choices.len()
        invariant
            i <= choices@.len(),
            member(*frame, "choices"@) == Some(Json::Array(*choices)),
            first_content_from(choices@, 0) == first_content_from(choices@, i as int),
        decreases choices.len() - i,
    {
        let choice = &choices[i];
        if let Some(d) = get_member(choice, "delta") {
            if let Json::Object(fields) = d {
                if fields.len() > 0 {
                    if let Some(Json::Str(s)) = get_member(d, "content") {
                        if s.unicode_len() > 0 {
                            return Some(s.as_str().to_owned());
                        }
                    }
                }
            }
        }
        i = i + 1;
    }
    None
}


/// The outputs that an optional output stands for.
pub open spec fn option_outputs(o: Option<Output>) -> Seq<OutputView> {
    match o {
        Some(x) => seq![x@],
        None => Seq::empty(),
    }
}

/// A line that, once trimmed, does not start with `data:` gives nothing and
/// leaves what the lines before it gave as it was.
pub proof fn lemma_non_data_line_ignored(lines: Seq<Seq<char>>, line: Seq<char>)
    requires
        !is_data_line(trimmed(line)),
    ensures
        line_step(line) == Some(Seq::<OutputView>::empty()),
        lines_outputs(lines.push(line)) == lines_outputs(lines),
        fragments_text(lines_outputs(lines.push(line)).0) == fragments_text(lines_outputs(lines).0),
{
    assert(lines.push(line).drop_last() =~= lines);
    assert(lines_outputs(lines).0 + Seq::<OutputView>::empty() =~= lines_outputs(lines).0);
}

/// A line that does not carry a payload, inserted anywhere among the lines,
/// changes neither the outputs nor whether they were all well formed.
pub proof fn lemma_non_data_line_inserted(lines: Seq<Seq<char>>, i: int, line: Seq<char>)
    requires
        0 <= i <= lines.len(),
        !is_data_line(trimmed(line)),
    ensures
        lines_outputs(lines.insert(i, line)) == lines_outputs(lines),
    decreases lines.len(),
{
    if i == lines.len() {
        assert(lines.insert(i, line) =~= lines.push(line));
        lemma_non_data_line_ignored(lines, line);
    } else {
        let longer = lines.insert(i, line);
        lemma_non_data_line_inserted(lines.drop_last(), i, line);
        assert(longer.drop_last() =~= lines.drop_last().insert(i, line));
        assert(longer.last() == lines.last());
    }
}

/// Lines none of which carries a payload give nothing.
pub proof fn lemma_non_data_lines_give_nothing(lines: Seq<Seq<char>>)
    requires
        forall|k: int| 0 <= k < lines.len() ==> !is_data_line(trimmed(#[trigger] lines[k])),
    ensures
        lines_outputs(lines) == (Seq::<OutputView>::empty(), true),
    decreases lines.len(),
{
    if lines.len() > 0 {
        let prev = lines.drop_last();
        assert forall|k: int| 0 <= k < prev.len() implies !is_data_line(trimmed(#[trigger] prev[k])) by {
            assert(prev[k] == lines[k]);
        }
        lemma_non_data_lines_give_nothing(prev);
        assert(!is_data_line(trimmed(lines[lines.len() - 1])));
        assert(Seq::<OutputView>::empty() + Seq::<OutputView>::empty() =~= Seq::<OutputView>::empty());
    }
}

/// A chunk none of whose lines carries a payload gives nothing, so feeding it
/// between any two chunks changes neither what is shown nor the message.
pub proof fn lemma_non_data_chunk_gives_nothing(chunk: Seq<char>)
    requires
        forall|k: int|
            0 <= k < split_on(trimmed(chunk), '\n').len() ==> !is_data_line(
                trimmed(#[trigger] split_on(trimmed(chunk), '\n')[k]),
            ),
    ensures
        chunk_outputs(chunk) == (Seq::<OutputView>::empty(), true),
        fragments_text(chunk_outputs(chunk).0) == Seq::<char>::empty(),
{
    if trimmed(chunk).len() > 0 {
        lemma_non_data_lines_give_nothing(split_on(trimmed(chunk), '\n'));
    }
}

/// A choice whose `delta` object has no `content` member, or an empty
/// `content` string, contributes no text.
pub proof fn lemma_delta_without_content_contributes_nothing(choice: Json, delta: Json)
    requires
        member(choice, "delta"@) == Some(delta),
        delta is Object,
        match member(delta, "content"@) {
            None => true,
            Some(Json::Str(s)) => s@.len() == 0,
            Some(_) => false,
        },
    ensures
        choice_content(choice) is None,
{
}

/// Reads one line of the stream: a line that does not carry a payload gives
/// nothing, the end marker a line break, and a frame the text it contributes.
pub fn read_line(line: &str) -> (r: Result<Option<Output>, StreamError>)
    ensures
        match line_step(line@) {
            None => r == Err::<Option<Output>, StreamError>(StreamError::MalformedPayload),
            Some(o) => r is Ok && o == option_outputs(r->Ok_0),
        },
{
    proof {
        reveal_strlit("data:");
        reveal_strlit("[DONE]");
        assert("data:"@ =~= data_prefix());
        assert("[DONE]"@ =~= done_marker());
    }
    let t = trim(line);
    if !starts_with(t, "data:") {
        return Ok(None);
    }
    let n = t.unicode_len();
    let p = trim(t.substring_char(5, n));
    if same_text(p, "[DONE]") {
        return Ok(Some(Output::Newline));
    }
    match parse_json(p) {
        None => Err(StreamError::MalformedPayload),
        Some(frame) => match frame_fragment(&frame) {
            Some(s) => Ok(Some(Output::Fragment(s))),
            None => Ok(None),
        },
    }
}

/// Whether an HTTP status code is a success code.
pub fn is_success_status(code: u16) -> (r: bool)
    ensures
        r == (200 <= code && code <= 299),
{
    200 <= code && code <= 299
}

proof fn lemma_lines_outputs_stuck(lines: Seq<Seq<char>>, i: int, k: int)
    requires
        0 <= i <= k <= lines.len(),
        !lines_outputs(lines.subrange(0, i)).1,
    ensures
        lines_outputs(lines.subrange(0, k)) == lines_outputs(lines.subrange(0, i)),
    decreases k - i,
{
    if k > i {
        lemma_lines_outputs_stuck(lines, i, k - 1);
        assert(lines.subrange(0, k).drop_last() =~= lines.subrange(0, k - 1));
    }
}

/// The state of reading one reply: whether the reply is read at all (its
/// status was a success) and the text gathered so far.
pub struct StreamParser {
    pub active: bool,
    pub text: String,
}

impl StreamParser {
    /// A parser for a reply with HTTP status `status`: one with a status that
    /// is not a success reads nothing and yields the empty message.
    pub fn new(status: u16) -> (r: StreamParser)
        ensures
            r.active == (200 <= status && status <= 299),
            r.text@.len() == 0,
    {
        StreamParser { active: is_success_status(status), text: String::new() }
    }

    /// Reads a chunk of the reply given as text: its trimmed text split into
    /// lines, each read in order. Returns what is to be shown and adds the
    /// fragments to the message; stops at a malformed payload.
    pub fn feed_text(&mut self, chunk: &str) -> (r: Result<Vec<Output>, StreamError>)
        ensures
            final(self).active == old(self).active,
            !old(self).active ==> r is Ok && r->Ok_0@.len() == 0 && final(self).text@ == old(
                self,
            ).text@,
            old(self).active ==> {
                &&& (r is Ok <==> chunk_outputs(chunk@).1)
                &&& r is Ok ==> outputs_view(r->Ok_0@) == chunk_outputs(chunk@).0
                &&& r is Err ==> r == Err::<Vec<Output>, StreamError>(
                    StreamError::MalformedPayload,
                )
                &&& final(self).text@ == old(self).text@ + fragments_text(
                    chunk_outputs(chunk@).0,
                )
            },
    {
        let mut outs: Vec<Output> = Vec::new();
        if !self.active {
            return Ok(outs);
        }
        let t = trim(chunk);
        if t.unicode_len() == 0 {
            return Ok(outs);
        }
        let lines = split_at_char(t, '\n');
        let ghost ls = lines.deep_view();
        let ghost start = self.text@;
        let mut i: usize = 0;
        proof {
            assert(ls.subrange(0, 0) =~= Seq::<Seq<char>>::empty());
        }
        while i < lines.len()
            invariant
                i <= lines@.len(),
                ls == lines.deep_view(),
                ls == split_on(trimmed(chunk@), '\n'),
                trimmed(chunk@).len() > 0,
                self.active == old(self).active,
                self.active,
                start == old(self).text@,
                lines_outputs(ls.subrange(0, i as int)) == (outputs_view(outs@), true),
                self.text@ == start + fragments_text(outputs_view(outs@)),
            decreases lines.len() - i,
        {
            let ghost before = outs@;
            proof {
                assert(ls.subrange(0, i + 1).drop_last() =~= ls.subrange(0, i as int));
                assert(ls.subrange(0, i + 1).last() == lines[i as int]@);
            }
            match read_line(lines[i].as_str()) {
                Err(e) => {
                    proof {
                        lemma_lines_outputs_stuck(ls, i + 1, ls.len() as int);
                        assert(ls.subrange(0, ls.len() as int) =~= ls);
                    }
                    return Err(e);
                },
                Ok(None) => {
                    proof {
                        assert(outputs_view(outs@) + Seq::<OutputView>::empty() =~= outputs_view(
                            outs@,
                        ));
                    }
                },
                Ok(Some(o)) => {
                    match &o {
                        Output::Fragment(s) => {
                            self.text.append(s.as_str());
                        },
                        Output::Newline => {},
                    }
                    outs.push(o);
                    proof {
                        assert(outputs_view(outs@) =~= outputs_view(before) + seq![o@]);
                        assert(outputs_view(outs@).drop_last() =~= outputs_view(before));
                    }
                },
            }
            i = i + 1;
        }
        proof {
            assert(ls.subrange(0, i as int) =~= ls);
        }
        Ok(outs)
    }

    /// Reads a chunk of the reply as it came over the network: its bytes are
    /// decoded as UTF-8, with invalid sequences replaced, and read as text.
    /// Chunks are read one by one: a payload split across two chunks is two
    /// incomplete payloads and gives `MalformedPayload`.
    pub fn feed_chunk(&mut self, chunk: &[u8]) -> (r: Result<Vec<Output>, StreamError>)
        ensures
            final(self).active == old(self).active,
            !old(self).active ==> r is Ok && r->Ok_0@.len() == 0 && final(self).text@ == old(
                self,
            ).text@,
            old(self).active ==> {
                &&& (r is Ok <==> chunk_outputs(utf8_lossy(chunk@)).1)
                &&& r is Ok ==> outputs_view(r->Ok_0@) == chunk_outputs(utf8_lossy(chunk@)).0
                &&& r is Err ==> r == Err::<Vec<Output>, StreamError>(
                    StreamError::MalformedPayload,
                )
                &&& final(self).text@ == old(self).text@ + fragments_text(
                    chunk_outputs(utf8_lossy(chunk@)).0,
                )
            },
    {
        let decoded = decode_lossy(chunk);
        self.feed_text(decoded.as_str())
    }

    /// The message gathered so far.
    pub fn message(&self) -> (r: String)
        ensures
            r@ == self.text@,
    {
        self.text.as_str().to_owned()
    }
}

} // verus!
