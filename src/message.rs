use vstd::prelude::*;

use crate::json::{field, get_field, Json, JsonV};

verus! {

/// A chat message as the server reports it.
///
/// `inserted_at` keeps the decimal text of the timestamp.
#[derive(Debug, Clone)]
pub struct Message {
    pub message_id: Option<i64>,
    pub parent_id: Option<i64>,
    pub role: Option<String>,
    pub inserted_at: Option<String>,
    pub content: String,
    pub thinking_content: Option<String>,
    pub status: Option<String>,
    pub accumulated_token_usage: Option<i64>,
}

/// The model of a [`Message`].
pub struct MessageV {
    pub message_id: Option<i64>,
    pub parent_id: Option<i64>,
    pub role: Option<Seq<char>>,
    pub inserted_at: Option<Seq<char>>,
    pub content: Seq<char>,
    pub thinking_content: Option<Seq<char>>,
    pub status: Option<Seq<char>>,
    pub accumulated_token_usage: Option<i64>,
}

pub open spec fn opt_text_view(s: Option<String>) -> Option<Seq<char>> {
    match s {
        Some(t) => Some(t@),
        None => None,
    }
}

impl View for Message {
    type V = MessageV;

    open spec fn view(&self) -> MessageV {
        MessageV {
            message_id: self.message_id,
            parent_id: self.parent_id,
            role: opt_text_view(self.role),
            inserted_at: opt_text_view(self.inserted_at),
            content: self.content@,
            thinking_content: opt_text_view(self.thinking_content),
            status: opt_text_view(self.status),
            accumulated_token_usage: self.accumulated_token_usage,
        }
    }
}

/// Why the tree could not be read as a [`Message`].
#[derive(PartialEq, Eq, Structural, Debug, Clone, Copy)]
pub enum BuildError {
    /// The tree is not an object, or one of its fields has the wrong shape.
    IncompleteData,
}

pub open spec fn is_digit(c: char) -> bool {
    '0' <= c && c <= '9'
}

pub open spec fn digit_value(c: char) -> int {
    (c as u32) as int - 48
}

/// The number written by a string of decimal digits.
pub open spec fn digits_value(s: Seq<char>) -> int
    decreases s.len(),
{
    if s.len() == 0 {
        0
    } else {
        digits_value(s.drop_last()) * 10 + digit_value(s.last())
    }
}

pub open spec fn all_digits(s: Seq<char>) -> bool {
    forall|i: int| 0 <= i < s.len() ==> is_digit(#[trigger] s[i])
}

/// The integer written as an optional `-` and one or more decimal digits.
pub open spec fn int_of_text(t: Seq<char>) -> Option<int> {
    let neg = t.len() > 0 && t[0] == '-';
    let ds = if neg {
        t.drop_first()
    } else {
        t
    };
    if ds.len() > 0 && all_digits(ds) {
        Some(
            if neg {
                -digits_value(ds)
            } else {
                digits_value(ds)
            },
        )
    } else {
        None
    }
}

/// The `i64` written by `t`, when `t` is an integer in range.
pub open spec fn i64_of_text(t: Seq<char>) -> Option<i64> {
    match int_of_text(t) {
        Some(n) => if i64::MIN <= n <= i64::MAX {
            Some(n as i64)
        } else {
            None
        },
        None => None,
    }
}

const LIMIT: u64 = 9223372036854775808;

/// Reads an integer written in decimal; `None` when it is not one or does not fit.
pub fn parse_i64(t: &String) -> (r: Option<i64>)
    ensures
        r == i64_of_text(t@),
{
    let s = t.as_str();
    let n = s.unicode_len();
    if n == 0 {
        return None;
    }
    let neg = s.get_char(0) == '-';
    let start: usize = if neg {
        1
    } else {
        0
    };
    let ghost ds = if neg {
        s@.drop_first()
    } else {
        s@
    };
    proof {
        assert(ds =~= s@.subrange(start as int, n as int));
    }
    if start >= n {
        return None;
    }
    let mut acc: u64 = 0;
    let mut big = false;
    let mut i: usize = start;
    proof {
        assert(s@.subrange(start as int, start as int) =~= Seq::<char>::empty());
    }
    while i < n
        invariant
            n == s@.len(),
            s@ == t@,
            start <= i <= n,
            n > 0,
            neg == (s@[0] == '-'),
            start == (if neg { 1usize } else { 0usize }),
            ds == (if neg { s@.drop_first() } else { s@ }),
            ds == s@.subrange(start as int, n as int),
            all_digits(s@.subrange(start as int, i as int)),
            !big ==> acc == digits_value(s@.subrange(start as int, i as int)) && acc <= LIMIT,
            big ==> digits_value(s@.subrange(start as int, i as int)) > LIMIT,
        decreases n - i,
    {
        let c = s.get_char(i);
        let ghost pre = s@.subrange(start as int, i as int);
        proof {
            assert(s@.subrange(start as int, i + 1).drop_last() =~= pre);
            assert(s@.subrange(start as int, i + 1).last() == c);
        }
        if !(c >= '0' && c <= '9') {
            proof {
                assert(ds[i - start] == c);
                assert(!is_digit(ds[i - start]));
                assert(!all_digits(ds));
                assert(int_of_text(t@) is None);
            }
            return None;
        }
        let d = (c as u32 - 48) as u64;
        if !big {
            if acc > 922337203685477580 {
                big = true;
            } else {
                acc = acc * 10 + d;
                if acc > LIMIT {
                    big = true;
                }
            }
        }
        proof {
            assert(all_digits(s@.subrange(start as int, i + 1)));
        }
        i = i + 1;
    }
    proof {
        assert(s@.subrange(start as int, n as int) == ds);
    }
    if big {
        None
    } else if neg {
        if acc == LIMIT {
            Some(i64::MIN)
        } else {
            Some(-(acc as i64))
        }
    } else if acc <= i64::MAX as u64 {
        Some(acc as i64)
    } else {
        None
    }
}

pub open spec fn opt_json_view(f: Option<&Json>) -> Option<JsonV> {
    match f {
        Some(x) => Some(x@),
        None => None,
    }
}

/// An optional integer field: absent or `null` is `None`; `Some(None)` marks a bad shape.
pub open spec fn opt_i64_field(f: Option<JsonV>) -> Option<Option<i64>> {
    match f {
        None => Some(None),
        Some(JsonV::Null) => Some(None),
        Some(JsonV::Number(t)) => match i64_of_text(t) {
            Some(n) => Some(Some(n)),
            None => None,
        },
        _ => None,
    }
}

/// An optional string field: absent or `null` is `None`.
pub open spec fn opt_text_field(f: Option<JsonV>) -> Option<Option<Seq<char>>> {
    match f {
        None => Some(None),
        Some(JsonV::Null) => Some(None),
        Some(JsonV::Str(t)) => Some(Some(t)),
        _ => None,
    }
}

/// An optional number field, kept as its text: absent or `null` is `None`.
pub open spec fn opt_number_field(f: Option<JsonV>) -> Option<Option<Seq<char>>> {
    match f {
        None => Some(None),
        Some(JsonV::Null) => Some(None),
        Some(JsonV::Number(t)) => Some(Some(t)),
        _ => None,
    }
}

/// A string field that defaults to empty when absent (but not when `null`).
pub open spec fn text_field(f: Option<JsonV>) -> Option<Seq<char>> {
    match f {
        None => Some(Seq::empty()),
        Some(JsonV::Str(t)) => Some(t),
        _ => None,
    }
}

/// The message that an object describes; unknown members are ignored.
pub open spec fn message_of(j: JsonV) -> Option<MessageV> {
    let id = opt_i64_field(field(j, "message_id"@));
    let parent = opt_i64_field(field(j, "parent_id"@));
    let role = opt_text_field(field(j, "role"@));
    let at = opt_number_field(field(j, "inserted_at"@));
    let content = text_field(field(j, "content"@));
    let thinking = opt_text_field(field(j, "thinking_content"@));
    let status = opt_text_field(field(j, "status"@));
    let usage = opt_i64_field(field(j, "accumulated_token_usage"@));
    if j is Object && id is Some && parent is Some && role is Some && at is Some && content is Some
        && thinking is Some && status is Some && usage is Some {
        Some(
            MessageV {
                message_id: id->0,
                parent_id: parent->0,
                role: role->0,
                inserted_at: at->0,
                content: content->0,
                thinking_content: thinking->0,
                status: status->0,
                accumulated_token_usage: usage->0,
            },
        )
    } else {
        None
    }
}

fn read_opt_i64(f: Option<&Json>) -> (r: Option<Option<i64>>)
    ensures
        r == opt_i64_field(opt_json_view(f)),
{
    match f {
        None => Some(None),
        Some(Json::Null) => Some(None),
        Some(Json::Number(t)) => match parse_i64(t) {
            Some(n) => Some(Some(n)),
            None => None,
        },
        _ => None,
    }
}

fn read_opt_text(f: Option<&Json>) -> (r: Option<Option<String>>)
    ensures
        match r {
            Some(x) => opt_text_field(opt_json_view(f)) == Some(opt_text_view(x)),
            None => opt_text_field(opt_json_view(f)) is None,
        },
{
    match f {
        None => Some(None),
        Some(Json::Null) => Some(None),
        Some(Json::Str(t)) => Some(Some(t.clone())),
        _ => None,
    }
}

fn read_opt_number(f: Option<&Json>) -> (r: Option<Option<String>>)
    ensures
        match r {
            Some(x) => opt_number_field(opt_json_view(f)) == Some(opt_text_view(x)),
            None => opt_number_field(opt_json_view(f)) is None,
        },
{
    match f {
        None => Some(None),
        Some(Json::Null) => Some(None),
        Some(Json::Number(t)) => Some(Some(t.clone())),
        _ => None,
    }
}

fn read_text(f: Option<&Json>) -> (r: Option<String>)
    ensures
        match r {
            Some(x) => text_field(opt_json_view(f)) == Some(x@),
            None => text_field(opt_json_view(f)) is None,
        },
{
    match f {
        None => Some(String::new()),
        Some(Json::Str(t)) => Some(t.clone()),
        _ => None,
    }
}

impl Message {
    /// Reads a message from an object tree.
    pub fn from_json(j: &Json) -> (r: Result<Message, BuildError>)
        ensures
            match message_of(j@) {
                Some(m) => r is Ok && r->Ok_0@ == m,
                None => r == Err::<Message, BuildError>(BuildError::IncompleteData),
            },
    {
        if !matches!(j, Json::Object(_)) {
            return Err(BuildError::IncompleteData);
        }
        let id = read_opt_i64(get_field(j, &"message_id".to_owned()));
        let parent = read_opt_i64(get_field(j, &"parent_id".to_owned()));
        let role = read_opt_text(get_field(j, &"role".to_owned()));
        let at = read_opt_number(get_field(j, &"inserted_at".to_owned()));
        let content = read_text(get_field(j, &"content".to_owned()));
        let thinking = read_opt_text(get_field(j, &"thinking_content".to_owned()));
        let status = read_opt_text(get_field(j, &"status".to_owned()));
        let usage = read_opt_i64(get_field(j, &"accumulated_token_usage".to_owned()));
        match (id, parent, role, at, content, thinking, status, usage) {
            (
                Some(message_id),
                Some(parent_id),
                Some(role),
                Some(inserted_at),
                Some(content),
                Some(thinking_content),
                Some(status),
                Some(accumulated_token_usage),
            ) => Ok(
                Message {
                    message_id,
                    parent_id,
                    role,
                    inserted_at,
                    content,
                    thinking_content,
                    status,
                    accumulated_token_usage,
                },
            ),
            _ => Err(BuildError::IncompleteData),
        }
    }

    /// Whether the server marked this message as cut short.
    pub fn is_incomplete(&self) -> (r: bool)
        ensures
            r == (self@.status == Some("INCOMPLETE"@)),
    {
        match &self.status {
            Some(s) => *s == "INCOMPLETE".to_owned(),
            None => false,
        }
    }
}

} // verus!
