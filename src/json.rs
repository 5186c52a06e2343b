use vstd::prelude::*;

verus! {

/// A JSON value as the patch engine stores it.
///
/// Numbers keep the decimal text they were written with; object members keep
/// their order.
#[derive(Debug)]
pub enum Json {
    Null,
    Bool(bool),
    Number(String),
    Str(String),
    Array(Vec<Json>),
    Object(Vec<(String, Json)>),
}

/// The mathematical model of a [`Json`] value.
pub enum JsonV {
    Null,
    Bool(bool),
    Number(Seq<char>),
    Str(Seq<char>),
    Array(Seq<JsonV>),
    Object(Seq<(Seq<char>, JsonV)>),
}

/// The members of an object, as a sequence of (key, value) pairs.
pub type Members = Seq<(Seq<char>, JsonV)>;

pub open spec fn view_items(s: Seq<Json>, n: nat) -> Seq<JsonV>
    decreases s, n,
{
    if n == 0 || n > s.len() {
        Seq::empty()
    } else {
        view_items(s, (n - 1) as nat).push(view_json(s[n - 1]))
    }
}

pub open spec fn view_members(s: Seq<(String, Json)>, n: nat) -> Members
    decreases s, n,
{
    if n == 0 || n > s.len() {
        Seq::empty()
    } else {
        view_members(s, (n - 1) as nat).push((s[n - 1].0@, view_json(s[n - 1].1)))
    }
}

pub open spec fn view_json(j: Json) -> JsonV
    decreases j, 0nat,
{
    match j {
        Json::Null => JsonV::Null,
        Json::Bool(b) => JsonV::Bool(b),
        Json::Number(t) => JsonV::Number(t@),
        Json::Str(t) => JsonV::Str(t@),
        Json::Array(v) => JsonV::Array(view_items(v@, v@.len())),
        Json::Object(m) => JsonV::Object(view_members(m@, m@.len())),
    }
}

impl View for Json {
    type V = JsonV;

    open spec fn view(&self) -> JsonV {
        view_json(*self)
    }
}

pub proof fn lemma_view_items(s: Seq<Json>, n: nat)
    requires
        n <= s.len(),
    ensures
        view_items(s, n).len() == n,
        forall|i: int| 0 <= i < n ==> #[trigger] view_items(s, n)[i] == view_json(s[i]),
    decreases n,
{
    if n > 0 {
        lemma_view_items(s, (n - 1) as nat);
    }
}

pub proof fn lemma_view_members(s: Seq<(String, Json)>, n: nat)
    requires
        n <= s.len(),
    ensures
        view_members(s, n).len() == n,
        forall|i: int|
            0 <= i < n ==> #[trigger] view_members(s, n)[i] == (s[i].0@, view_json(s[i].1)),
    decreases n,
{
    if n > 0 {
        lemma_view_members(s, (n - 1) as nat);
    }
}

/// The model of a vector of members.
pub open spec fn members_view(m: Seq<(String, Json)>) -> Members {
    view_members(m, m.len())
}

/// Index of the first member with key `k` among the first `n`, or -1.
pub open spec fn find_in(m: Members, k: Seq<char>, n: nat) -> int
    decreases n,
{
    if n == 0 || n > m.len() {
        -1
    } else {
        let r = find_in(m, k, (n - 1) as nat);
        if r >= 0 {
            r
        } else if m[n - 1].0 == k {
            n - 1
        } else {
            -1
        }
    }
}

/// Index of the first member with key `k`, or -1.
pub open spec fn key_index(m: Members, k: Seq<char>) -> int {
    find_in(m, k, m.len())
}

pub proof fn lemma_find_in(m: Members, k: Seq<char>, n: nat)
    requires
        n <= m.len(),
    ensures
        -1 <= find_in(m, k, n) < n,
        find_in(m, k, n) >= 0 ==> m[find_in(m, k, n)].0 == k,
        forall|i: int| 0 <= i < n && m[i].0 == k ==> find_in(m, k, n) >= 0,
    decreases n,
{
    if n > 0 {
        lemma_find_in(m, k, (n - 1) as nat);
    }
}

pub proof fn lemma_find_in_stable(m: Members, k: Seq<char>, n0: nat, n: nat)
    requires
        n0 <= n <= m.len(),
        find_in(m, k, n0) >= 0,
    ensures
        find_in(m, k, n) == find_in(m, k, n0),
    decreases n - n0,
{
    if n > n0 {
        lemma_find_in_stable(m, k, n0, (n - 1) as nat);
    }
}

/// The value of the first member with key `k`.
pub open spec fn member_get(m: Members, k: Seq<char>) -> Option<JsonV> {
    let i = key_index(m, k);
    if i >= 0 {
        Some(m[i].1)
    } else {
        None
    }
}

/// Overwrites the first member with key `k`, or appends one.
pub open spec fn member_put(m: Members, k: Seq<char>, v: JsonV) -> Members {
    let i = key_index(m, k);
    if i >= 0 {
        m.update(i, (k, v))
    } else {
        m.push((k, v))
    }
}

/// The members of an object; any other value counts as an empty object.
pub open spec fn members_of(j: JsonV) -> Members {
    match j {
        JsonV::Object(m) => m,
        _ => Seq::empty(),
    }
}

/// The member `k` of `j` when `j` is an object.
pub open spec fn field(j: JsonV, k: Seq<char>) -> Option<JsonV> {
    match j {
        JsonV::Object(m) => member_get(m, k),
        _ => None,
    }
}

/// Position of the first member whose key is `k`.
pub fn find_member(m: &Vec<(String, Json)>, k: &String) -> (r: Option<usize>)
    ensures
        ({
            let i = key_index(members_view(m@), k@);
            match r {
                Some(j) => i == j && j < m@.len(),
                None => i == -1,
            }
        }),
{
    proof {
        lemma_view_members(m@, m@.len());
        lemma_find_in(members_view(m@), k@, m@.len());
    }
    let mut i: usize = 0;
    while i < m.len()
        invariant
            i <= m@.len(),
            members_view(m@).len() == m@.len(),
            forall|j: int|
                0 <= j < m@.len() ==> #[trigger] members_view(m@)[j] == (
                m@[j].0@,
                view_json(m@[j].1),
            ),
            find_in(members_view(m@), k@, i as nat) == -1,
        decreases m@.len() - i,
    {
        if m[i].0 == *k {
            proof {
                lemma_find_in_stable(members_view(m@), k@, (i + 1) as nat, m@.len());
            }
            return Some(i);
        }
        i = i + 1;
    }
    None
}

/// Looks up member `k` of an object value.
pub fn get_field<'a>(j: &'a Json, k: &String) -> (r: Option<&'a Json>)
    ensures
        match r {
            Some(x) => field(j@, k@) == Some(x@),
            None => field(j@, k@) is None,
        },
{
    match j {
        Json::Object(m) => {
            proof {
                lemma_view_members(m@, m@.len());
            }
            match find_member(m, k) {
                Some(i) => Some(&m[i].1),
                None => None,
            }
        },
        _ => None,
    }
}

impl Json {
    /// A copy of the whole tree.
    pub fn deep_copy(&self) -> (r: Json)
        ensures
            r@ == self@,
        decreases self,
    {
        match self {
            Json::Null => Json::Null,
            Json::Bool(b) => Json::Bool(*b),
            Json::Number(t) => Json::Number(t.clone()),
            Json::Str(t) => Json::Str(t.clone()),
            Json::Array(v) => {
                let mut out: Vec<Json> = Vec::new();
                let mut i: usize = 0;
                while i < v.len()
                    invariant
                        *self == Json::Array(*v),
                        i <= v@.len(),
                        out@.len() == i,
                        forall|j: int| 0 <= j < i ==> #[trigger] view_json(out@[j]) == view_json(v@[j]),
                    decreases v@.len() - i,
                {
                    proof {
                        vstd::std_specs::vec::axiom_vec_index_decreases(*v, i as int);
                        assert(decreases_to!(*v => v[i as int]));
                        assert(decreases_to!(*self => (*self)->Array_0));
                        assert(decreases_to!(*self => v[i as int]));
                    }
                    let c = v[i].deep_copy();
                    out.push(c);
                    i = i + 1;
                }
                proof {
                    lemma_view_items(v@, v@.len());
                    lemma_view_items(out@, out@.len());
                    assert(view_items(out@, out@.len()) =~= view_items(v@, v@.len()));
                }
                Json::Array(out)
            },
            Json::Object(m) => {
                let mut out: Vec<(String, Json)> = Vec::new();
                let mut i: usize = 0;
                while i < m.len()
                    invariant
                        *self == Json::Object(*m),
                        i <= m@.len(),
                        out@.len() == i,
                        forall|j: int|
                            0 <= j < i ==> #[trigger] out@[j].0@ == m@[j].0@ && view_json(out@[j].1)
                                == view_json(m@[j].1),
                    decreases m@.len() - i,
                {
                    proof {
                        vstd::std_specs::vec::axiom_vec_index_decreases(*m, i as int);
                        assert(decreases_to!(*m => m[i as int]));
                        assert(decreases_to!(*self => (*self)->Object_0));
                        assert(decreases_to!(m[i as int] => m[i as int].1));
                        assert(decreases_to!(*self => m[i as int].1));
                    }
                    let c = m[i].1.deep_copy();
                    out.push((m[i].0.clone(), c));
                    i = i + 1;
                }
                proof {
                    lemma_view_members(m@, m@.len());
                    lemma_view_members(out@, out@.len());
                    assert(view_members(out@, out@.len()) =~= view_members(m@, m@.len()));
                }
                Json::Object(out)
            },
        }
    }
}

#[verifier::external_type_specification]
#[verifier::external_body]
pub struct ExValue(serde_json::Value);

/// The value that the JSON text `b` denotes, when `b` is well-formed JSON.
pub uninterp spec fn json_of_bytes(b: Seq<u8>) -> Option<JsonV>;

/// The compact JSON text that writes `v`.
pub uninterp spec fn json_text(v: JsonV) -> Seq<char>;

/// Relies on serde_json's `Value` having exactly the variants of [`Json`]:
/// moves each one across, numbers as their `Display` text.
#[verifier::external_body]
fn from_serde(v: serde_json::Value) -> Json {
    match v {
        serde_json::Value::Null => Json::Null,
        serde_json::Value::Bool(b) => Json::Bool(b),
        serde_json::Value::Number(n) => Json::Number(n.to_string()),
        serde_json::Value::String(t) => Json::Str(t),
        serde_json::Value::Array(a) => Json::Array(a.into_iter().map(from_serde).collect()),
        serde_json::Value::Object(m) => Json::Object(
            m.into_iter().map(|(k, x)| (k, from_serde(x))).collect(),
        ),
    }
}

/// Relies on serde_json's `Value` having exactly the variants of [`Json`]:
/// moves each one across, numbers through `Number::from_str`. A number text
/// that `Number::from_str` refuses becomes `null`; the library writes only
/// integers it formatted itself.
#[verifier::external_body]
fn to_serde(v: &Json) -> serde_json::Value {
    match v {
        Json::Null => serde_json::Value::Null,
        Json::Bool(b) => serde_json::Value::Bool(*b),
        Json::Number(t) => t.parse::<serde_json::Number>().map_or(serde_json::Value::Null, serde_json::Value::Number),
        Json::Str(t) => serde_json::Value::String(t.clone()),
        Json::Array(a) => serde_json::Value::Array(a.iter().map(to_serde).collect()),
        Json::Object(m) => serde_json::Value::Object(
            m.iter().map(|(k, x)| (k.clone(), to_serde(x))).collect(),
        ),
    }
}

/// Relies on `serde_json::from_slice::<serde_json::Value>`: parses JSON text,
/// and the result depends on the bytes alone.
#[verifier::external_body]
pub(crate) fn parse_json(b: &[u8]) -> (r: Option<Json>)
    ensures
        match r {
            Some(j) => json_of_bytes(b@) == Some(j@),
            None => json_of_bytes(b@) is None,
        },
{
    serde_json::from_slice::<serde_json::Value>(b).ok().map(from_serde)
}

/// Relies on `Display` for `serde_json::Value`: writes the value as compact
/// JSON text, which depends on the value alone.
#[verifier::external_body]
pub(crate) fn write_json(v: &Json) -> (r: String)
    ensures
        r@ == json_text(v@),
{
    to_serde(v).to_string()
}

} // verus!
