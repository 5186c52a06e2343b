use vstd::prelude::*;

use crate::json::{field, get_field, json_of_bytes, parse_json, Json, JsonV};
use crate::message::{message_of, opt_json_view, opt_text_view, BuildError, Message, MessageV};
use crate::patch::{
    apply_spec, build_spec, PatchError, PatchV, StreamingMessageBuilder, StreamingUpdate,
};

verus! {

/// One piece of output from a response stream.
#[derive(Debug)]
pub enum StreamChunk {
    /// A piece of the answer text, exactly as one frame carried it.
    Content(String),
    /// A piece of the reasoning text, exactly as one frame carried it.
    Thinking(String),
    /// The finished message; always the last chunk of a stream.
    Message(Message),
}

/// The model of a [`StreamChunk`].
pub enum ChunkV {
    Content(Seq<char>),
    Thinking(Seq<char>),
    Message(MessageV),
}

impl View for StreamChunk {
    type V = ChunkV;

    open spec fn view(&self) -> ChunkV {
        match self {
            StreamChunk::Content(t) => ChunkV::Content(t@),
            StreamChunk::Thinking(t) => ChunkV::Thinking(t@),
            StreamChunk::Message(m) => ChunkV::Message(m@),
        }
    }
}

/// What ends a request or a stream early.
#[derive(Debug)]
pub enum Fault {
    /// The proof of work could not be produced.
    Proof(String),
    /// The network call failed or returned an error status.
    Transport(String),
    /// A data frame is not JSON, or not shaped like a patch.
    MalformedFrame,
    /// A patch frame could not be applied.
    Patch(PatchError),
    /// The server sent an error frame with this text.
    ServerReported(String),
    /// The stream ended without a usable message.
    IncompleteResult,
}

/// The model of a [`Fault`].
pub enum FaultV {
    Proof(Seq<char>),
    Transport(Seq<char>),
    MalformedFrame,
    Patch(PatchError),
    ServerReported(Seq<char>),
    IncompleteResult,
}

impl View for Fault {
    type V = FaultV;

    open spec fn view(&self) -> FaultV {
        match self {
            Fault::Proof(t) => FaultV::Proof(t@),
            Fault::Transport(t) => FaultV::Transport(t@),
            Fault::MalformedFrame => FaultV::MalformedFrame,
            Fault::Patch(e) => FaultV::Patch(*e),
            Fault::ServerReported(t) => FaultV::ServerReported(t@),
            Fault::IncompleteResult => FaultV::IncompleteResult,
        }
    }
}

/// The model of the per-stream parser state: the tree and the active path.
pub struct ParserV {
    pub tree: JsonV,
    pub active: Option<Seq<char>>,
}

pub open spec fn fresh_parser() -> ParserV {
    ParserV { tree: JsonV::Object(Seq::empty()), active: None }
}

pub open spec fn content_path() -> Seq<char> {
    "response/content"@
}

pub open spec fn thinking_path() -> Seq<char> {
    "response/thinking_content"@
}

/// The text of an error frame `{"type":"error","content":text}`.
pub open spec fn error_text(j: JsonV) -> Option<Seq<char>> {
    match (field(j, "type"@), field(j, "content"@)) {
        (Some(JsonV::Str(ty)), Some(JsonV::Str(t))) => if ty == "error"@ {
            Some(t)
        } else {
            None
        },
        _ => None,
    }
}

/// An optional text member: absent or `null` is `None`; `Some(None)` marks a bad shape.
pub open spec fn patch_text(f: Option<JsonV>) -> Option<Option<Seq<char>>> {
    match f {
        None => Some(None),
        Some(JsonV::Null) => Some(None),
        Some(JsonV::Str(t)) => Some(Some(t)),
        _ => None,
    }
}

/// The patch that an object frame `{"p":..,"v":..,"o":..}` carries.
pub open spec fn patch_of(j: JsonV) -> Option<PatchV> {
    let p = patch_text(field(j, "p"@));
    let o = patch_text(field(j, "o"@));
    let v = match field(j, "v"@) {
        Some(JsonV::Null) => None,
        other => other,
    };
    if j is Object && p is Some && o is Some {
        Some(PatchV { path: p->0, value: v, op: o->0 })
    } else {
        None
    }
}

/// The chunk that a frame's value yields at an effective path.
pub open spec fn chunk_for(path: Seq<char>, value: Option<JsonV>) -> Option<ChunkV> {
    match value {
        Some(JsonV::Str(t)) => if path == content_path() {
            Some(ChunkV::Content(t))
        } else if path == thinking_path() {
            Some(ChunkV::Thinking(t))
        } else {
            None
        },
        _ => None,
    }
}

/// A snapshot frame (neither path nor value) replaces the tree with itself
/// when it has a `response` member; else nothing changes.
pub open spec fn snapshot(p: ParserV, v: JsonV) -> ParserV {
    if field(v, "response"@) is Some {
        ParserV { tree: v, active: p.active }
    } else {
        p
    }
}

/// One parsed data frame: the new state and the chunk it yields, or the fault.
pub open spec fn frame_step(p: ParserV, j: JsonV) -> Result<(ParserV, Option<ChunkV>), FaultV> {
    if error_text(j) is Some {
        Err(FaultV::ServerReported(error_text(j)->0))
    } else {
        match patch_of(j) {
            None => Err(FaultV::MalformedFrame),
            Some(u) => {
                let path = match u.path {
                    Some(x) => x,
                    None => Seq::empty(),
                };
                if u.path is None && u.value is None {
                    Ok((snapshot(p, j), None))
                } else if path.len() == 0 && u.value is Some && u.value->0 is Object {
                    Ok((ParserV { tree: u.value->0, active: p.active }, None))
                } else if path.len() == 0 {
                    match p.active {
                        None => Ok((p, None)),
                        Some(cur) => match apply_spec(
                            p.tree,
                            PatchV { path: Some(cur), value: u.value, op: Some("APPEND"@) },
                        ) {
                            Ok(t) => Ok((ParserV { tree: t, active: p.active }, chunk_for(cur, u.value))),
                            Err(e) => Err(FaultV::Patch(e)),
                        },
                    }
                } else {
                    match apply_spec(p.tree, PatchV { path: Some(path), value: u.value, op: u.op }) {
                        Ok(t) => Ok((ParserV { tree: t, active: Some(path) }, chunk_for(path, u.value))),
                        Err(e) => Err(FaultV::Patch(e)),
                    }
                }
            },
        }
    }
}

/// One data frame given as bytes.
pub open spec fn data_step(p: ParserV, d: Seq<u8>) -> Result<(ParserV, Option<ChunkV>), FaultV> {
    match json_of_bytes(d) {
        None => Err(FaultV::MalformedFrame),
        Some(j) => frame_step(p, j),
    }
}

/// A frame with an empty path and an object value replaces the whole tree;
/// when that object has a `response` member, building then reads it as the
/// message.
pub proof fn lemma_replace_then_build(p: ParserV, j: JsonV, v: JsonV, resp: JsonV)
    requires
        error_text(j) is None,
        patch_of(j) matches Some(u) && (u.path is None || u.path == Some(Seq::<char>::empty()))
            && u.value == Some(v),
        v is Object,
        field(v, "response"@) == Some(resp),
    ensures
        frame_step(p, j) == Ok::<(ParserV, Option<ChunkV>), FaultV>(
            (ParserV { tree: v, active: p.active }, None),
        ),
        build_spec(v) == message_of(resp),
{
}

/// A frame with an empty path and a value that is not an object, after an
/// explicit path `path`, acts exactly as `{"p": path, "o": "APPEND", "v": value}`.
pub proof fn lemma_continuation_is_append(
    p: ParserV,
    path: Seq<char>,
    cont: JsonV,
    explicit: JsonV,
    v: JsonV,
)
    requires
        p.active == Some(path),
        path.len() > 0,
        error_text(cont) is None,
        error_text(explicit) is None,
        patch_of(cont) matches Some(u) && (u.path is None || u.path == Some(Seq::<char>::empty()))
            && u.value == Some(v),
        !(v is Object),
        patch_of(explicit) == Some(PatchV { path: Some(path), value: Some(v), op: Some("APPEND"@) }),
    ensures
        frame_step(p, cont) == frame_step(p, explicit),
{
}

pub open spec fn opt_chunk_view(c: Option<StreamChunk>) -> Option<ChunkV> {
    match c {
        Some(x) => Some(x@),
        None => None,
    }
}

/// The chunk that `value` yields at `path`.
fn chunk_of(path: &String, value: Option<&Json>) -> (r: Option<StreamChunk>)
    ensures
        opt_chunk_view(r) == chunk_for(path@, opt_json_view(value)),
{
    match value {
        Some(Json::Str(t)) => {
            if *path == "response/content".to_owned() {
                Some(StreamChunk::Content(t.clone()))
            } else if *path == "response/thinking_content".to_owned() {
                Some(StreamChunk::Thinking(t.clone()))
            } else {
                None
            }
        },
        _ => None,
    }
}

fn read_patch_text(f: Option<&Json>) -> (r: Option<Option<String>>)
    ensures
        match r {
            Some(x) => patch_text(opt_json_view(f)) == Some(opt_text_view(x)),
            None => patch_text(opt_json_view(f)) is None,
        },
{
    match f {
        None => Some(None),
        Some(Json::Null) => Some(None),
        Some(Json::Str(t)) => Some(Some(t.clone())),
        _ => None,
    }
}

fn copy_opt(v: Option<&Json>) -> (r: Option<Json>)
    ensures
        match r {
            Some(x) => opt_json_view(v) == Some(x@),
            None => opt_json_view(v) is None,
        },
{
    match v {
        Some(x) => Some(x.deep_copy()),
        None => None,
    }
}

/// Turns data frames into chunks for one response stream.
///
/// It holds the message tree and the active path: the last explicit path
/// seen, which path-less continuation frames extend.
pub struct SseParser {
    builder: StreamingMessageBuilder,
    current_property: Option<String>,
}

impl View for SseParser {
    type V = ParserV;

    closed spec fn view(&self) -> ParserV {
        ParserV { tree: self.builder@, active: opt_text_view(self.current_property) }
    }
}

impl SseParser {
    /// A parser over an empty tree with no active path.
    pub fn new() -> (r: Self)
        ensures
            r@ == fresh_parser(),
    {
        SseParser { builder: StreamingMessageBuilder::new(), current_property: None }
    }

    /// The message tree built so far.
    pub fn builder(&self) -> (r: &StreamingMessageBuilder)
        ensures
            r@ == self@.tree,
    {
        &self.builder
    }

    fn take_snapshot(&mut self, v: Json)
        ensures
            final(self)@ == snapshot(old(self)@, v@),
    {
        if get_field(&v, &"response".to_owned()).is_some() {
            self.builder = StreamingMessageBuilder::from_value(v);
        }
    }

    /// Handles the JSON text of one `data:` line.
    ///
    /// A fault leaves the parser as it was.
    pub fn process_data_line(&mut self, data: &[u8]) -> (r: Result<Option<StreamChunk>, Fault>)
        ensures
            match data_step(old(self)@, data@) {
                Ok((p, c)) => r is Ok && final(self)@ == p && opt_chunk_view(r->Ok_0) == c,
                Err(f) => r is Err && r->Err_0@ == f && final(self)@ == old(self)@,
            },
    {
        match parse_json(data) {
            Some(j) => self.process_frame(j),
            None => Err(Fault::MalformedFrame),
        }
    }

    /// Handles one data frame already parsed from JSON.
    ///
    /// A fault leaves the parser as it was.
    pub fn process_frame(&mut self, j: Json) -> (r: Result<Option<StreamChunk>, Fault>)
        ensures
            match frame_step(old(self)@, j@) {
                Ok((p, c)) => r is Ok && final(self)@ == p && opt_chunk_view(r->Ok_0) == c,
                Err(f) => r is Err && r->Err_0@ == f && final(self)@ == old(self)@,
            },
    {
        match (get_field(&j, &"type".to_owned()), get_field(&j, &"content".to_owned())) {
            (Some(Json::Str(ty)), Some(Json::Str(t))) => {
                if *ty == "error".to_owned() {
                    return Err(Fault::ServerReported(t.clone()));
                }
            },
            _ => {},
        }
        let p = match read_patch_text(get_field(&j, &"p".to_owned())) {
            Some(x) => x,
            None => return Err(Fault::MalformedFrame),
        };
        let o = match read_patch_text(get_field(&j, &"o".to_owned())) {
            Some(x) => x,
            None => return Err(Fault::MalformedFrame),
        };
        if !matches!(j, Json::Object(_)) {
            return Err(Fault::MalformedFrame);
        }
        let v = match get_field(&j, &"v".to_owned()) {
            Some(Json::Null) => None,
            other => other,
        };
        let empty_path = match &p {
            None => true,
            Some(x) => x.as_str().unicode_len() == 0,
        };
        if p.is_none() && v.is_none() {
            self.take_snapshot(j);
            return Ok(None);
        }
        if empty_path {
            if let Some(x) = v {
                if matches!(x, Json::Object(_)) {
                    self.builder = StreamingMessageBuilder::from_value(x.deep_copy());
                    return Ok(None);
                }
            }
            match &self.current_property {
                None => Ok(None),
                Some(cur) => {
                    let upd = StreamingUpdate {
                        p: Some(cur.clone()),
                        v: copy_opt(v),
                        o: Some("APPEND".to_owned()),
                    };
                    let chunk = chunk_of(cur, v);
                    match self.builder.apply_update(&upd) {
                        Ok(()) => Ok(chunk),
                        Err(e) => Err(Fault::Patch(e)),
                    }
                },
            }
        } else {
            let path = match p {
                Some(x) => x,
                None => return Err(Fault::MalformedFrame),
            };
            let upd = StreamingUpdate { p: Some(path.clone()), v: copy_opt(v), o };
            let chunk = chunk_of(&path, v);
            match self.builder.apply_update(&upd) {
                Ok(()) => {
                    self.current_property = Some(path);
                    Ok(chunk)
                },
                Err(e) => Err(Fault::Patch(e)),
            }
        }
    }

    /// Ends the stream: the message that the tree describes.
    pub fn finish(self) -> (r: Result<Message, Fault>)
        ensures
            match build_spec(self@.tree) {
                Some(m) => r is Ok && r->Ok_0@ == m,
                None => r is Err && r->Err_0@ == FaultV::IncompleteResult,
            },
    {
        match self.builder.build() {
            Ok(m) => Ok(m),
            Err(BuildError::IncompleteData) => Err(Fault::IncompleteResult),
        }
    }
}

} // verus!
