use vstd::prelude::*;

use crate::json::{
    field, find_in, find_member, get_field, key_index, lemma_find_in, lemma_find_in_stable,
    lemma_view_members, member_get, member_put, members_of, members_view, view_json, Json, JsonV,
    Members,
};
use crate::message::{message_of, BuildError, Message, MessageV};

verus! {

/// The model of a sequence of path segments.
pub open spec fn segs_view(s: Seq<String>) -> Seq<Seq<char>> {
    s.map_values(|x: String| x@)
}

/// A path split on `/`; like `str::split`, it always has at least one segment.
pub open spec fn path_segments(s: Seq<char>) -> Seq<Seq<char>>
    decreases s.len(),
{
    if s.len() == 0 {
        seq![Seq::empty()]
    } else {
        let init = path_segments(s.drop_last());
        if s.last() == '/' {
            init.push(Seq::empty())
        } else {
            init.update(init.len() - 1, init.last().push(s.last()))
        }
    }
}

pub proof fn lemma_path_segments_len(s: Seq<char>)
    ensures
        path_segments(s).len() >= 1,
    decreases s.len(),
{
    if s.len() > 0 {
        lemma_path_segments_len(s.drop_last());
    }
}

/// Splits a slash-separated path into its segments.
pub fn split_path(path: &String) -> (r: Vec<String>)
    ensures
        segs_view(r@) == path_segments(path@),
{
    let s = path.as_str();
    let n = s.unicode_len();
    let mut segs: Vec<String> = Vec::new();
    let mut start: usize = 0;
    let mut i: usize = 0;
    proof {
        assert(s@.take(0) =~= Seq::<char>::empty());
        assert(segs_view(segs@) =~= Seq::<Seq<char>>::empty());
        assert(s@.subrange(0, 0) =~= Seq::<char>::empty());
        assert(path_segments(Seq::<char>::empty()) =~= seq![Seq::<char>::empty()]);
    }
    while i < n
        invariant
            n == s@.len(),
            s@ == path@,
            start <= i <= n,
            path_segments(s@.take(i as int)) == segs_view(segs@).push(s@.subrange(start as int, i as int)),
        decreases n - i,
    {
        let c = s.get_char(i);
        let ghost prev = segs@;
        let ghost cur = s@.subrange(start as int, i as int);
        proof {
            assert(s@.take(i + 1).drop_last() =~= s@.take(i as int));
            assert(s@.take(i + 1).last() == c);
        }
        if c == '/' {
            let seg = s.substring_char(start, i).to_owned();
            segs.push(seg);
            start = i + 1;
            proof {
                assert(segs_view(segs@) =~= segs_view(prev).push(cur));
                assert(s@.subrange(start as int, i + 1) =~= Seq::<char>::empty());
                assert(path_segments(s@.take(i + 1)) =~= segs_view(segs@).push(s@.subrange(start as int, i + 1)));
            }
        } else {
            proof {
                assert(s@.subrange(start as int, i + 1) =~= cur.push(c));
                assert(path_segments(s@.take(i + 1)) =~= segs_view(segs@).push(s@.subrange(start as int, i + 1)));
            }
        }
        i = i + 1;
    }
    let last = s.substring_char(start, n).to_owned();
    segs.push(last);
    proof {
        assert(s@.take(n as int) =~= s@);
        assert(segs_view(segs@) =~= path_segments(s@));
    }
    segs
}

/// The tree after setting `v` at segments `p[i..]` under `t`.
///
/// Every segment but the last must name an object: a missing or non-object
/// member there becomes an empty object, and so does `t` itself.
pub open spec fn set_from(t: JsonV, p: Seq<Seq<char>>, i: int, v: JsonV) -> JsonV
    decreases p.len() - i,
{
    let m = members_of(t);
    if i + 1 >= p.len() || i < 0 {
        JsonV::Object(member_put(m, p[i], v))
    } else {
        let child = match member_get(m, p[i]) {
            Some(c) => c,
            None => JsonV::Object(Seq::empty()),
        };
        JsonV::Object(member_put(m, p[i], set_from(child, p, i + 1, v)))
    }
}

/// What `set_from` would overwrite: the value now at segments `p[i..]`.
pub open spec fn leaf_from(t: JsonV, p: Seq<Seq<char>>, i: int) -> Option<JsonV>
    decreases p.len() - i,
{
    let m = members_of(t);
    if i + 1 >= p.len() || i < 0 {
        member_get(m, p[i])
    } else {
        match member_get(m, p[i]) {
            Some(c) => leaf_from(c, p, i + 1),
            None => None,
        }
    }
}

/// The message that a tree describes.
pub open spec fn build_spec(t: JsonV) -> Option<MessageV> {
    match field(t, "response"@) {
        Some(r) => message_of(r),
        None => message_of(t),
    }
}

/// Why a patch could not be applied.
#[derive(PartialEq, Eq, Structural, Debug, Clone, Copy)]
pub enum PatchError {
    /// The patch names no path.
    MissingPath,
    /// The patch carries no value.
    MissingValue,
    /// `APPEND` met a value that is not a string, on either side.
    TypeMismatch,
    /// The operation is neither `SET` nor `APPEND`.
    UnsupportedOperation,
}

/// One patch frame: a path, a value and an operation, each optional.
pub struct StreamingUpdate {
    /// The slash-separated path.
    pub p: Option<String>,
    /// The value to store or append.
    pub v: Option<Json>,
    /// The operation: `SET` when absent, or `APPEND`.
    pub o: Option<String>,
}

/// The model of a [`StreamingUpdate`].
pub struct PatchV {
    pub path: Option<Seq<char>>,
    pub value: Option<JsonV>,
    pub op: Option<Seq<char>>,
}

impl View for StreamingUpdate {
    type V = PatchV;

    open spec fn view(&self) -> PatchV {
        PatchV {
            path: match self.p {
                Some(s) => Some(s@),
                None => None,
            },
            value: match self.v {
                Some(j) => Some(j@),
                None => None,
            },
            op: match self.o {
                Some(s) => Some(s@),
                None => None,
            },
        }
    }
}

/// Whether a patch names no target: its path is absent or empty.
pub open spec fn no_path(path: Option<Seq<char>>) -> bool {
    match path {
        None => true,
        Some(p) => p.len() == 0,
    }
}

/// The tree after one patch, or why the patch is refused.
///
/// A patch with no path and an object value replaces the whole tree.
pub open spec fn apply_spec(t: JsonV, u: PatchV) -> Result<JsonV, PatchError> {
    if no_path(u.path) && u.value is Some && u.value->0 is Object {
        Ok(u.value->0)
    } else {
        match (u.path, u.value) {
        (None, _) => Err(PatchError::MissingPath),
        (_, None) => Err(PatchError::MissingValue),
        (Some(path), Some(v)) => if path.len() == 0 {
            Err(PatchError::MissingPath)
        } else {
            let keys = path_segments(path);
            let op = match u.op {
                Some(o) => o,
                None => "SET"@,
            };
            if op == "SET"@ {
                Ok(set_from(t, keys, 0, v))
            } else if op == "APPEND"@ {
                match (leaf_from(t, keys, 0), v) {
                    (None, JsonV::Str(d)) => Ok(set_from(t, keys, 0, JsonV::Str(d))),
                    (Some(JsonV::Str(s)), JsonV::Str(d)) => Ok(set_from(t, keys, 0, JsonV::Str(s + d))),
                    _ => Err(PatchError::TypeMismatch),
                }
            } else {
                Err(PatchError::UnsupportedOperation)
            }
        },
        }
    }
}

proof fn lemma_members_update(s: Seq<(String, Json)>, j: int, x: (String, Json))
    requires
        0 <= j < s.len(),
    ensures
        members_view(s.update(j, x)) == members_view(s).update(j, (x.0@, view_json(x.1))),
{
    lemma_view_members(s, s.len());
    lemma_view_members(s.update(j, x), s.len());
    assert(members_view(s.update(j, x)) =~= members_view(s).update(j, (x.0@, view_json(x.1))));
}

proof fn lemma_members_push(s: Seq<(String, Json)>, x: (String, Json))
    ensures
        members_view(s.push(x)) == members_view(s).push((x.0@, view_json(x.1))),
{
    lemma_view_members(s, s.len());
    lemma_view_members(s.push(x), s.len() + 1);
    assert(members_view(s.push(x)) =~= members_view(s).push((x.0@, view_json(x.1))));
}

/// The members of `t` as a vector; any other value gives none.
fn into_members(t: Json) -> (r: Vec<(String, Json)>)
    ensures
        members_view(r@) == members_of(t@),
{
    match t {
        Json::Object(m) => m,
        _ => Vec::new(),
    }
}

/// Sets `v` at segments `p[i..]` under `t`, creating objects on the way.
fn set_path(t: Json, p: &Vec<String>, i: usize, v: Json) -> (r: Json)
    requires
        i < p@.len(),
    ensures
        r@ == set_from(t@, segs_view(p@), i as int, v@),
    decreases p@.len() - i,
{
    let ghost keys = segs_view(p@);
    let ghost tv = t@;
    let mut m = into_members(t);
    let idx = find_member(&m, &p[i]);
    proof {
        lemma_view_members(m@, m@.len());
        lemma_find_in(members_view(m@), keys[i as int], m@.len());
        assert(keys[i as int] == p@[i as int]@);
        assert(members_view(m@) == members_of(tv));
    }
    if i == p.len() - 1 {
        match idx {
            Some(j) => {
                let ghost before = m@;
                m.set(j, (p[i].clone(), v));
                proof {
                    lemma_members_update(before, j as int, m@[j as int]);
                }
            },
            None => {
                let ghost before = m@;
                m.push((p[i].clone(), v));
                proof {
                    lemma_members_push(before, m@.last());
                }
            },
        }
    } else {
        match idx {
            Some(j) => {
                let ghost before = m@;
                let (k, child) = m.remove(j);
                let nc = set_path(child, p, i + 1, v);
                m.insert(j, (k, nc));
                proof {
                    assert(m@ =~= before.update(j as int, m@[j as int]));
                    lemma_members_update(before, j as int, m@[j as int]);
                }
            },
            None => {
                let ghost before = m@;
                let nc = set_path(Json::Object(Vec::new()), p, i + 1, v);
                proof {
                    assert(members_view(Seq::<(String, Json)>::empty()) =~= Seq::empty());
                }
                m.push((p[i].clone(), nc));
                proof {
                    lemma_members_push(before, m@.last());
                }
            },
        }
    }
    Json::Object(m)
}

/// The value now at segments `p[i..]` under `t`, if any.
fn leaf_path<'a>(t: &'a Json, p: &Vec<String>, i: usize) -> (r: Option<&'a Json>)
    requires
        i < p@.len(),
    ensures
        match r {
            Some(x) => leaf_from(t@, segs_view(p@), i as int) == Some(x@),
            None => leaf_from(t@, segs_view(p@), i as int) is None,
        },
    decreases p@.len() - i,
{
    let ghost keys = segs_view(p@);
    proof {
        assert(keys[i as int] == p@[i as int]@);
    }
    let found = match t {
        Json::Object(m) => {
            proof {
                lemma_view_members(m@, m@.len());
            }
            match find_member(m, &p[i]) {
                Some(j) => Some(&m[j].1),
                None => None,
            }
        },
        _ => None,
    };
    if i == p.len() - 1 {
        found
    } else {
        match found {
            Some(c) => leaf_path(c, p, i + 1),
            None => None,
        }
    }
}

proof fn lemma_find_in_prefix(m1: Members, m2: Members, k: Seq<char>, n: nat)
    requires
        n <= m1.len(),
        n <= m2.len(),
        forall|j: int| 0 <= j < n ==> #[trigger] m1[j].0 == m2[j].0,
    ensures
        find_in(m1, k, n) == find_in(m2, k, n),
    decreases n,
{
    if n > 0 {
        lemma_find_in_prefix(m1, m2, k, (n - 1) as nat);
    }
}

proof fn lemma_get_put(m: Members, k: Seq<char>, v: JsonV)
    ensures
        member_get(member_put(m, k, v), k) == Some(v),
{
    let i = key_index(m, k);
    lemma_find_in(m, k, m.len());
    if i >= 0 {
        let m2 = m.update(i, (k, v));
        if find_in(m, k, i as nat) >= 0 {
            lemma_find_in(m, k, i as nat);
            lemma_find_in_stable(m, k, i as nat, m.len());
        }
        lemma_find_in_prefix(m, m2, k, i as nat);
        lemma_find_in_stable(m2, k, (i + 1) as nat, m2.len());
    } else {
        let m2 = m.push((k, v));
        lemma_find_in_prefix(m, m2, k, m.len());
    }
}

/// Reading back the path just set gives the value set there.
pub proof fn lemma_leaf_after_set(t: JsonV, p: Seq<Seq<char>>, i: int, v: JsonV)
    requires
        0 <= i < p.len(),
    ensures
        leaf_from(set_from(t, p, i, v), p, i) == Some(v),
    decreases p.len() - i,
{
    let m = members_of(t);
    if i + 1 >= p.len() {
        lemma_get_put(m, p[i], v);
    } else {
        let child = match member_get(m, p[i]) {
            Some(c) => c,
            None => JsonV::Object(Seq::empty()),
        };
        lemma_leaf_after_set(child, p, i + 1, v);
        lemma_get_put(m, p[i], set_from(child, p, i + 1, v));
    }
}

/// A patch with no path and an object value replaces the whole tree; when that
/// object has a `response` member, building then reads it as the message.
pub proof fn lemma_replace_then_build_patch(t: JsonV, u: PatchV, v: JsonV, resp: JsonV)
    requires
        no_path(u.path),
        u.value == Some(v),
        v is Object,
        field(v, "response"@) == Some(resp),
    ensures
        apply_spec(t, u) == Ok::<JsonV, PatchError>(v),
        build_spec(v) == message_of(resp),
{
}

/// The text at a path, reading an absent value as empty.
pub open spec fn leaf_text(t: JsonV, path: Seq<char>) -> Option<Seq<char>> {
    match leaf_from(t, path_segments(path), 0) {
        None => Some(Seq::empty()),
        Some(JsonV::Str(s)) => Some(s),
        _ => None,
    }
}

/// The `APPEND` patch of `d` at `path`.
pub open spec fn append_patch(path: Seq<char>, d: Seq<char>) -> PatchV {
    PatchV { path: Some(path), value: Some(JsonV::Str(d)), op: Some("APPEND"@) }
}

/// `APPEND` patches of `ds`, in order, at one path.
pub open spec fn append_all(t: JsonV, path: Seq<char>, ds: Seq<Seq<char>>) -> Result<JsonV, PatchError>
    decreases ds.len(),
{
    if ds.len() == 0 {
        Ok(t)
    } else {
        match append_all(t, path, ds.drop_last()) {
            Ok(t1) => apply_spec(t1, append_patch(path, ds.last())),
            Err(e) => Err(e),
        }
    }
}

/// The pieces joined end to end.
pub open spec fn concat_all(ds: Seq<Seq<char>>) -> Seq<char>
    decreases ds.len(),
{
    if ds.len() == 0 {
        Seq::empty()
    } else {
        concat_all(ds.drop_last()) + ds.last()
    }
}

/// Appending `d1, ..., dN` at a (non-empty) path that holds no text yet
/// (absent or empty) succeeds and leaves `d1 + ... + dN` there, for every N.
pub proof fn lemma_append_accumulates(t: JsonV, path: Seq<char>, ds: Seq<Seq<char>>)
    requires
        path.len() > 0,
        leaf_text(t, path) == Some(Seq::<char>::empty()),
    ensures
        append_all(t, path, ds) is Ok,
        leaf_text(append_all(t, path, ds)->Ok_0, path) == Some(concat_all(ds)),
    decreases ds.len(),
{
    if ds.len() > 0 {
        lemma_append_accumulates(t, path, ds.drop_last());
        let t1 = append_all(t, path, ds.drop_last())->Ok_0;
        let keys = path_segments(path);
        lemma_path_segments_len(path);
        reveal_strlit("SET");
        reveal_strlit("APPEND");
        assert("APPEND"@ != "SET"@) by {
            assert("APPEND"@.len() != "SET"@.len());
        }
        let before = concat_all(ds.drop_last());
        let after = set_from(t1, keys, 0, JsonV::Str(before + ds.last()));
        match leaf_from(t1, keys, 0) {
            None => {
                assert(before == Seq::<char>::empty());
                assert(before + ds.last() =~= ds.last());
            },
            Some(_) => {},
        }
        assert(apply_spec(t1, append_patch(path, ds.last())) == Ok::<JsonV, PatchError>(after));
        lemma_leaf_after_set(t1, keys, 0, JsonV::Str(before + ds.last()));
    }
}

/// The tree that patch frames are applied to.
pub struct StreamingMessageBuilder {
    inner: Json,
}

impl View for StreamingMessageBuilder {
    type V = JsonV;

    closed spec fn view(&self) -> JsonV {
        self.inner@
    }
}

impl Default for StreamingMessageBuilder {
    fn default() -> (r: Self)
        ensures
            r@ == JsonV::Object(Seq::empty()),
    {
        StreamingMessageBuilder::new()
    }
}

impl StreamingMessageBuilder {
    /// A builder over an empty object.
    pub fn new() -> (r: Self)
        ensures
            r@ == JsonV::Object(Seq::empty()),
    {
        let r = StreamingMessageBuilder { inner: Json::Object(Vec::new()) };
        proof {
            assert(members_view(Seq::<(String, Json)>::empty()) =~= Seq::empty());
        }
        r
    }

    /// A builder whose tree is `v`, replacing whatever was there.
    pub fn from_value(v: Json) -> (r: Self)
        ensures
            r@ == v@,
    {
        StreamingMessageBuilder { inner: v }
    }

    /// The current tree.
    pub fn tree(&self) -> (r: &Json)
        ensures
            r@ == self@,
    {
        &self.inner
    }

    /// Reads the message: the `response` member when the tree has one, else
    /// the whole tree.
    pub fn build(self) -> (r: Result<Message, BuildError>)
        ensures
            match build_spec(self@) {
                Some(m) => r is Ok && r->Ok_0@ == m,
                None => r == Err::<Message, BuildError>(BuildError::IncompleteData),
            },
    {
        match get_field(&self.inner, &"response".to_owned()) {
            Some(resp) => Message::from_json(resp),
            None => Message::from_json(&self.inner),
        }
    }

    /// Applies one patch: `SET` (the default) stores the value at the path,
    /// `APPEND` extends the string there (absent counts as empty), and an
    /// object value with no path replaces the whole tree.
    ///
    /// A refused patch leaves the tree as it was.
    pub fn apply_update(&mut self, update: &StreamingUpdate) -> (r: Result<(), PatchError>)
        ensures
            match apply_spec(old(self)@, update@) {
                Ok(t) => r is Ok && final(self)@ == t,
                Err(e) => r == Err::<(), PatchError>(e) && final(self)@ == old(self)@,
            },
    {
        let empty_path = match &update.p {
            None => true,
            Some(p) => p.as_str().unicode_len() == 0,
        };
        if empty_path {
            if let Some(v) = &update.v {
                if matches!(v, Json::Object(_)) {
                    self.inner = v.deep_copy();
                    return Ok(());
                }
            }
        }
        let path = match &update.p {
            Some(p) => p,
            None => return Err(PatchError::MissingPath),
        };
        let value = match &update.v {
            Some(v) => v,
            None => return Err(PatchError::MissingValue),
        };
        if empty_path {
            return Err(PatchError::MissingPath);
        }
        let keys = split_path(path);
        proof {
            lemma_path_segments_len(path@);
        }
        let set_word = "SET".to_owned();
        let append_word = "APPEND".to_owned();
        let (is_set, is_append) = match &update.o {
            None => (true, false),
            Some(o) => (*o == set_word, *o == append_word),
        };
        if is_set {
            let v = value.deep_copy();
            let mut t = Json::Null;
            core::mem::swap(&mut self.inner, &mut t);
            self.inner = set_path(t, &keys, 0, v);
            Ok(())
        } else if is_append {
            let d = match value {
                Json::Str(d) => d,
                _ => return Err(PatchError::TypeMismatch),
            };
            let text = match leaf_path(&self.inner, &keys, 0) {
                None => d.clone(),
                Some(Json::Str(s)) => {
                    let mut x = s.clone();
                    x.append(d.as_str());
                    x
                },
                Some(_) => return Err(PatchError::TypeMismatch),
            };
            let mut t = Json::Null;
            core::mem::swap(&mut self.inner, &mut t);
            self.inner = set_path(t, &keys, 0, Json::Str(text));
            Ok(())
        } else {
            Err(PatchError::UnsupportedOperation)
        }
    }
}

} // verus!
