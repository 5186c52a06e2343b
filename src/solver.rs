use vstd::prelude::*;

use crate::json::{json_text, write_json, Json, JsonV};

verus! {

/// A proof-of-work challenge as the server issues it.
///
/// `difficulty_bits` holds the bit pattern of the difficulty, a 64-bit float.
#[derive(Debug, Clone)]
pub struct Challenge {
    pub salt: String,
    pub expire_at: i64,
    pub challenge: String,
    pub difficulty_bits: u64,
    pub algorithm: String,
    pub signature: String,
    pub target_path: String,
}

/// The answer to a challenge, as it is sent back.
#[derive(Debug)]
pub struct SolveResponse {
    pub algorithm: String,
    pub challenge: String,
    pub salt: String,
    pub answer: i64,
    pub signature: String,
    pub target_path: String,
}

/// The character of a decimal digit.
pub open spec fn digit_char(d: nat) -> char {
    seq!['0', '1', '2', '3', '4', '5', '6', '7', '8', '9'][d as int]
}

/// The decimal digits of a natural number, without leading zeros.
pub open spec fn nat_digits(n: nat) -> Seq<char>
    decreases n,
{
    if n < 10 {
        seq![digit_char(n)]
    } else {
        nat_digits(n / 10).push(digit_char(n % 10))
    }
}

/// An integer in decimal, with `-` before a negative one.
pub open spec fn decimal_text(n: int) -> Seq<char> {
    if n < 0 {
        seq!['-'] + nat_digits((-n) as nat)
    } else {
        nat_digits(n as nat)
    }
}

/// Base64 (standard alphabet, with padding) of the UTF-8 bytes of `s`.
pub uninterp spec fn base64_text(s: Seq<char>) -> Seq<char>;

/// Relies on `ToString` for `i64`, through its `Display`: the decimal digits,
/// with `-` before a negative number.
#[verifier::external_body]
fn i64_text(n: i64) -> (r: String)
    ensures
        r@ == decimal_text(n as int),
{
    n.to_string()
}

/// Relies on `base64::engine::general_purpose::STANDARD.encode`: standard
/// alphabet with padding, over the bytes of `s`.
#[verifier::external_body]
fn base64_encode(s: &str) -> (r: String)
    ensures
        r@ == base64_text(s@),
{
    base64::Engine::encode(&base64::engine::general_purpose::STANDARD, s)
}

/// The text that the module searches behind: `salt_expireat_`.
pub open spec fn prefix_text(salt: Seq<char>, expire_at: i64) -> Seq<char> {
    salt + "_"@ + decimal_text(expire_at as int) + "_"@
}

/// Builds the text that the module searches behind.
pub fn solve_prefix(challenge: &Challenge) -> (r: String)
    ensures
        r@ == prefix_text(challenge.salt@, challenge.expire_at),
{
    let mut p = challenge.salt.clone();
    p.append("_");
    let n = i64_text(challenge.expire_at);
    p.append(n.as_str());
    p.append("_");
    p
}

/// The little-endian value of four bytes.
pub open spec fn le_u32(b0: u8, b1: u8, b2: u8, b3: u8) -> int {
    b0 as int + 256 * (b1 as int) + 65536 * (b2 as int) + 16777216 * (b3 as int)
}

/// The status word at `at` in module memory: zero means no solution.
pub fn read_status(mem: &[u8], at: usize) -> (r: i32)
    requires
        at + 4 <= mem@.len(),
    ensures
        r == le_u32(mem@[at as int], mem@[at + 1], mem@[at + 2], mem@[at + 3]) as i32,
{
    let v: u32 = mem[at] as u32 + 256 * (mem[at + 1] as u32) + 65536 * (mem[at + 2] as u32)
        + 16777216 * (mem[at + 3] as u32);
    v as i32
}

/// The little-endian value of eight bytes.
pub open spec fn le_u64(b: Seq<u8>) -> int
    decreases b.len(),
{
    if b.len() == 0 {
        0
    } else {
        b[0] as int + 256 * le_u64(b.drop_first())
    }
}

/// The bit pattern of the 64-bit float answer at `at` in module memory.
pub fn read_answer_bits(mem: &[u8], at: usize) -> (r: u64)
    requires
        at + 8 <= mem@.len(),
    ensures
        r as int == le_u64(mem@.subrange(at as int, at + 8)),
{
    let n = mem.len();
    let mut v: u64 = 0;
    let mut k: usize = 8;
    while k > 0
        invariant
            k <= 8,
            n == mem@.len(),
            at + 8 <= mem@.len(),
            v as int == le_u64(mem@.subrange(at + k, at + 8)),
            v < pow256((8 - k) as nat),
        decreases k,
    {
        proof {
            let tail = mem@.subrange(at + k - 1, at + 8);
            assert(tail.drop_first() =~= mem@.subrange(at + k, at + 8));
            assert(tail[0] == mem@[at + k - 1]);
            lemma_pow256_step((8 - k) as nat);
        }
        let b = mem[at + k - 1];
        proof {
            assert(pow256((8 - k) as nat) <= 72057594037927936) by {
                lemma_pow256_mono((8 - k) as nat, 7);
                reveal_with_fuel(pow256, 8);
            }
            assert(256 * (v as int) + 255 < 256 * pow256((8 - k) as nat)) by (nonlinear_arith)
                requires
                    v < pow256((8 - k) as nat),
            ;
        }
        v = b as u64 + 256 * v;
        k = k - 1;
    }
    v
}

/// `256` to the power `n`.
pub open spec fn pow256(n: nat) -> int
    decreases n,
{
    if n == 0 {
        1
    } else {
        256 * pow256((n - 1) as nat)
    }
}

proof fn lemma_pow256_step(n: nat)
    ensures
        pow256(n + 1) == 256 * pow256(n),
{
}

proof fn lemma_pow256_mono(a: nat, b: nat)
    requires
        a <= b,
    ensures
        1 <= pow256(a) <= pow256(b),
    decreases b,
{
    if b > 0 {
        if a < b {
            lemma_pow256_mono(a, (b - 1) as nat);
        } else {
            lemma_pow256_mono((a - 1) as nat, (b - 1) as nat);
        }
    }
}

/// The JSON object that carries a response, in the order the server expects.
pub open spec fn response_json(
    algorithm: Seq<char>,
    challenge: Seq<char>,
    salt: Seq<char>,
    answer: i64,
    signature: Seq<char>,
    target_path: Seq<char>,
) -> JsonV {
    JsonV::Object(
        seq![
            ("algorithm"@, JsonV::Str(algorithm)),
            ("challenge"@, JsonV::Str(challenge)),
            ("salt"@, JsonV::Str(salt)),
            ("answer"@, JsonV::Number(decimal_text(answer as int))),
            ("signature"@, JsonV::Str(signature)),
            ("target_path"@, JsonV::Str(target_path)),
        ],
    )
}

impl SolveResponse {
    /// The response to `challenge` with `answer`.
    pub fn new(challenge: &Challenge, answer: i64) -> (r: Self)
        ensures
            r.algorithm@ == challenge.algorithm@,
            r.challenge@ == challenge.challenge@,
            r.salt@ == challenge.salt@,
            r.answer == answer,
            r.signature@ == challenge.signature@,
            r.target_path@ == challenge.target_path@,
    {
        SolveResponse {
            algorithm: challenge.algorithm.clone(),
            challenge: challenge.challenge.clone(),
            salt: challenge.salt.clone(),
            answer,
            signature: challenge.signature.clone(),
            target_path: challenge.target_path.clone(),
        }
    }

    pub open spec fn json_spec(&self) -> JsonV {
        response_json(
            self.algorithm@,
            self.challenge@,
            self.salt@,
            self.answer,
            self.signature@,
            self.target_path@,
        )
    }

    /// The response as a JSON object.
    pub fn to_json(&self) -> (r: Json)
        ensures
            r@ == self.json_spec(),
    {
        let mut m: Vec<(String, Json)> = Vec::new();
        m.push(("algorithm".to_owned(), Json::Str(self.algorithm.clone())));
        m.push(("challenge".to_owned(), Json::Str(self.challenge.clone())));
        m.push(("salt".to_owned(), Json::Str(self.salt.clone())));
        m.push(("answer".to_owned(), Json::Number(i64_text(self.answer))));
        m.push(("signature".to_owned(), Json::Str(self.signature.clone())));
        m.push(("target_path".to_owned(), Json::Str(self.target_path.clone())));
        proof {
            crate::json::lemma_view_members(m@, 6);
            assert(crate::json::view_members(m@, 6) =~= match self.json_spec() {
                JsonV::Object(ms) => ms,
                _ => Seq::empty(),
            });
        }
        Json::Object(m)
    }

    /// The token for the request header: the compact JSON text, in base64.
    pub fn to_token(&self) -> (r: String)
        ensures
            r@ == base64_text(json_text(self.json_spec())),
    {
        let j = self.to_json();
        let text = write_json(&j);
        base64_encode(text.as_str())
    }
}

/// The token that proves the work for `challenge`, given the module's answer.
pub fn proof_token(challenge: &Challenge, answer: i64) -> (r: String)
    ensures
        r@ == base64_text(
            json_text(
                response_json(
                    challenge.algorithm@,
                    challenge.challenge@,
                    challenge.salt@,
                    answer,
                    challenge.signature@,
                    challenge.target_path@,
                ),
            ),
        ),
{
    SolveResponse::new(challenge, answer).to_token()
}

/// Where a solve stands. The `i32` values are addresses and lengths in
/// module memory.
#[derive(PartialEq, Eq, Structural, Debug, Clone, Copy)]
pub enum SolveState {
    /// Waiting for the 16-byte result area to be reserved on the module stack.
    Reserving,
    /// Result area at the address; the challenge text is being written.
    WritingChallenge(i32),
    /// Result area and challenge text placed; the prefix is being written.
    WritingPrefix(i32, i32, i32),
    /// The search is running.
    Calling(i32),
    /// The result area is being read.
    Reading(i32),
    /// The reservation is being released; the answer, when one was found.
    Restoring(Option<i64>),
    /// Finished.
    Done,
}

/// What the module reported for the last action.
#[derive(PartialEq, Eq, Structural, Debug, Clone, Copy)]
pub enum SolveEvent {
    /// The stack pointer moved; its new value.
    StackMoved(i32),
    /// A text was written at this address with this length.
    Written(i32, i32),
    /// The search returned.
    Solved,
    /// The status word and the answer (the float truncated to an integer).
    ResultRead(i32, i64),
    /// The module call failed.
    Failed,
}

/// What the caller must do with the module next.
#[derive(Debug)]
pub enum SolveAction {
    /// Move the module's stack pointer by this many bytes.
    AdjustStack(i32),
    /// Write this text through the module's allocator.
    Write(String),
    /// Run the search: result area, challenge address and length, prefix address and length.
    Solve(i32, i32, i32, i32, i32),
    /// Read the 16-byte result area at this address.
    ReadResult(i32),
    /// Finished: the token, or `None` when no token could be made.
    Finish(Option<String>),
}

/// The model of a [`SolveAction`].
pub enum SolveActionV {
    AdjustStack(i32),
    Write(Seq<char>),
    Solve(i32, i32, i32, i32, i32),
    ReadResult(i32),
    Finish(Option<Seq<char>>),
}

impl View for SolveAction {
    type V = SolveActionV;

    open spec fn view(&self) -> SolveActionV {
        match self {
            SolveAction::AdjustStack(d) => SolveActionV::AdjustStack(*d),
            SolveAction::Write(t) => SolveActionV::Write(t@),
            SolveAction::Solve(a, b, c, d, e) => SolveActionV::Solve(*a, *b, *c, *d, *e),
            SolveAction::ReadResult(a) => SolveActionV::ReadResult(*a),
            SolveAction::Finish(t) => SolveActionV::Finish(
                match t {
                    Some(x) => Some(x@),
                    None => None,
                },
            ),
        }
    }
}

/// The token for `c` with `answer`.
pub open spec fn token_spec(c: &Challenge, answer: i64) -> Seq<char> {
    base64_text(
        json_text(
            response_json(
                c.algorithm@,
                c.challenge@,
                c.salt@,
                answer,
                c.signature@,
                c.target_path@,
            ),
        ),
    )
}

/// Whether the 16-byte result area is reserved and not yet released.
pub open spec fn holds_reservation(s: SolveState) -> bool {
    s is WritingChallenge || s is WritingPrefix || s is Calling || s is Reading
}

/// One step of a solve.
pub open spec fn solve_step(c: &Challenge, s: SolveState, e: SolveEvent) -> (SolveState, SolveActionV) {
    match (s, e) {
        (SolveState::Reserving, SolveEvent::StackMoved(p)) => (
            SolveState::WritingChallenge(p),
            SolveActionV::Write(c.challenge@),
        ),
        (SolveState::WritingChallenge(o), SolveEvent::Written(cp, cl)) => (
            SolveState::WritingPrefix(o, cp, cl),
            SolveActionV::Write(prefix_text(c.salt@, c.expire_at)),
        ),
        (SolveState::WritingPrefix(o, cp, cl), SolveEvent::Written(pp, pl)) => (
            SolveState::Calling(o),
            SolveActionV::Solve(o, cp, cl, pp, pl),
        ),
        (SolveState::Calling(o), SolveEvent::Solved) => (SolveState::Reading(o), SolveActionV::ReadResult(o)),
        (SolveState::Reading(_), SolveEvent::ResultRead(status, answer)) => (
            SolveState::Restoring(
                if status != 0 {
                    Some(answer)
                } else {
                    None
                },
            ),
            SolveActionV::AdjustStack(16i32),
        ),
        (SolveState::Restoring(found), SolveEvent::StackMoved(_)) => (
            SolveState::Done,
            SolveActionV::Finish(
                match found {
                    Some(a) => Some(token_spec(c, a)),
                    None => None,
                },
            ),
        ),
        _ => if holds_reservation(s) {
            (SolveState::Restoring(None), SolveActionV::AdjustStack(16i32))
        } else {
            (SolveState::Done, SolveActionV::Finish(None))
        },
    }
}

/// While the result area is reserved, no step finishes the solve: a failure
/// first releases the reservation.
pub proof fn lemma_release_before_finish(c: &Challenge, s: SolveState, e: SolveEvent)
    requires
        holds_reservation(s),
    ensures
        !(solve_step(c, s, e).1 is Finish),
        solve_step(c, s, e).0 is Restoring ==> solve_step(c, s, e).1 == SolveActionV::AdjustStack(16i32),
        !holds_reservation(solve_step(c, s, e).0) ==> solve_step(c, s, e).0 is Restoring,
{
}

/// One solve of one challenge against the module, as a sequence of actions.
///
/// The caller performs each action and reports what happened; the session
/// reserves the result area first and always releases it before finishing.
pub struct SolveSession {
    challenge: Challenge,
    state: SolveState,
}

impl SolveSession {
    pub closed spec fn state_spec(&self) -> SolveState {
        self.state
    }

    pub closed spec fn challenge_spec(&self) -> &Challenge {
        &self.challenge
    }

    /// Starts a solve: the first action reserves the result area.
    pub fn start(challenge: Challenge) -> (r: (SolveSession, SolveAction))
        ensures
            r.0.state_spec() == SolveState::Reserving,
            r.0.challenge_spec() == &challenge,
            r.1@ == SolveActionV::AdjustStack(-16i32),
    {
        (SolveSession { challenge, state: SolveState::Reserving }, SolveAction::AdjustStack(-16))
    }

    /// Where the solve stands.
    pub fn state(&self) -> (r: SolveState)
        ensures
            r == self.state_spec(),
    {
        self.state
    }

    /// Takes what happened to the last action and returns the next one.
    pub fn step(&mut self, e: SolveEvent) -> (r: SolveAction)
        ensures
            final(self).challenge_spec() == old(self).challenge_spec(),
            (final(self).state_spec(), r@) == solve_step(
                old(self).challenge_spec(),
                old(self).state_spec(),
                e,
            ),
    {
        let (next, action) = match (self.state, e) {
            (SolveState::Reserving, SolveEvent::StackMoved(p)) => (
                SolveState::WritingChallenge(p),
                SolveAction::Write(self.challenge.challenge.clone()),
            ),
            (SolveState::WritingChallenge(o), SolveEvent::Written(cp, cl)) => (
                SolveState::WritingPrefix(o, cp, cl),
                SolveAction::Write(solve_prefix(&self.challenge)),
            ),
            (SolveState::WritingPrefix(o, cp, cl), SolveEvent::Written(pp, pl)) => (
                SolveState::Calling(o),
                SolveAction::Solve(o, cp, cl, pp, pl),
            ),
            (SolveState::Calling(o), SolveEvent::Solved) => (SolveState::Reading(o), SolveAction::ReadResult(o)),
            (SolveState::Reading(_), SolveEvent::ResultRead(status, answer)) => (
                SolveState::Restoring(
                    if status != 0 {
                        Some(answer)
                    } else {
                        None
                    },
                ),
                SolveAction::AdjustStack(16),
            ),
            (SolveState::Restoring(found), SolveEvent::StackMoved(_)) => (
                SolveState::Done,
                SolveAction::Finish(
                    match found {
                        Some(a) => Some(proof_token(&self.challenge, a)),
                        None => None,
                    },
                ),
            ),
            (s, _) => match s {
                SolveState::WritingChallenge(_) | SolveState::WritingPrefix(..) | SolveState::Calling(_)
                | SolveState::Reading(_) => (SolveState::Restoring(None), SolveAction::AdjustStack(16)),
                _ => (SolveState::Done, SolveAction::Finish(None)),
            },
        };
        self.state = next;
        action
    }
}

} // verus!
