//! NNTP protocol decisions.
//!
//! The wire itself (sockets, TLS, timeouts) lives outside the library; this
//! module holds every decision the client makes about protocol text: status
//! codes, command framing, the authentication exchange with its redaction
//! rule, dot-unstuffed body lines, and the reader that consumes pipelined
//! `BODY` responses in request order.

use vstd::prelude::*;

use crate::text::{push_all, spec_is_digit};
use crate::yenc::{decode_yenc, spec_decode};
use vstd::string::StringSliceAdditionalSpecFns;

verus! {

/// Request for one article, as carried through pool and protocol layers.
#[derive(Clone)]
pub struct SegmentRequest {
    pub message_id: Vec<u8>,
    pub group: Vec<u8>,
    pub segment_number: u32,
}

/// The status code of a response line: its first three bytes, when all
/// three are digits.
pub open spec fn spec_code_of(line: Seq<u8>) -> Option<int> {
    if line.len() >= 3 && spec_is_digit(line[0]) && spec_is_digit(line[1]) && spec_is_digit(
        line[2],
    ) {
        Some(
            (line[0] - '0' as u8) * 100 + (line[1] - '0' as u8) * 10 + (line[2] - '0' as u8),
        )
    } else {
        None
    }
}

/// Read the status code off a response line.
pub fn response_code(line: &[u8]) -> (r: Option<u16>)
    ensures
        match r {
            Some(c) => spec_code_of(line@) == Some(c as int),
            None => spec_code_of(line@) is None,
        },
{
    if line.len() >= 3 && crate::text::is_digit(line[0]) && crate::text::is_digit(line[1])
        && crate::text::is_digit(line[2]) {
        let c: u16 = (line[0] - '0' as u8) as u16 * 100 + (line[1] - '0' as u8) as u16 * 10 + (
        line[2] - '0' as u8) as u16;
        Some(c)
    } else {
        None
    }
}

/// Is the line a given status code?
pub open spec fn spec_has_code(line: Seq<u8>, code: int) -> bool {
    spec_code_of(line) == Some(code)
}

/// The server greeting must be 200 or 201.
pub fn greeting_ok(line: &[u8]) -> (r: bool)
    ensures
        r == (spec_has_code(line@, 200) || spec_has_code(line@, 201)),
{
    match response_code(line) {
        Some(c) => c == 200 || c == 201,
        None => false,
    }
}

/// `GROUP` must answer 211.
pub fn group_ok(line: &[u8]) -> (r: bool)
    ensures
        r == spec_has_code(line@, 211),
{
    match response_code(line) {
        Some(c) => c == 211,
        None => false,
    }
}

/// `NOOP` on a healthy connection answers 200.
pub fn noop_ok(line: &[u8]) -> (r: bool)
    ensures
        r == spec_has_code(line@, 200),
{
    match response_code(line) {
        Some(c) => c == 200,
        None => false,
    }
}

// --- command framing ---------------------------------------------------

pub open spec fn spec_body_command(message_id: Seq<u8>) -> Seq<u8> {
    "BODY <".spec_bytes() + message_id + ">\r\n".spec_bytes()
}

pub open spec fn spec_group_command(group: Seq<u8>) -> Seq<u8> {
    "GROUP ".spec_bytes() + group + "\r\n".spec_bytes()
}

pub open spec fn spec_auth_user_command(user: Seq<u8>) -> Seq<u8> {
    "AUTHINFO USER ".spec_bytes() + user + "\r\n".spec_bytes()
}

pub open spec fn spec_auth_pass_command(pass: Seq<u8>) -> Seq<u8> {
    "AUTHINFO PASS ".spec_bytes() + pass + "\r\n".spec_bytes()
}

/// The `BODY` command line for one article.
pub fn body_command(message_id: &[u8]) -> (r: Vec<u8>)
    ensures
        r@ == spec_body_command(message_id@),
{
    let mut out: Vec<u8> = Vec::new();
    push_all(&mut out, "BODY <".as_bytes());
    push_all(&mut out, message_id);
    push_all(&mut out, ">\r\n".as_bytes());
    out
}

/// The `GROUP` command line for one newsgroup.
pub fn group_command(group: &[u8]) -> (r: Vec<u8>)
    ensures
        r@ == spec_group_command(group@),
{
    let mut out: Vec<u8> = Vec::new();
    push_all(&mut out, "GROUP ".as_bytes());
    push_all(&mut out, group);
    push_all(&mut out, "\r\n".as_bytes());
    out
}

/// The first authentication command.
pub fn auth_user_command(user: &[u8]) -> (r: Vec<u8>)
    ensures
        r@ == spec_auth_user_command(user@),
{
    let mut out: Vec<u8> = Vec::new();
    push_all(&mut out, "AUTHINFO USER ".as_bytes());
    push_all(&mut out, user);
    push_all(&mut out, "\r\n".as_bytes());
    out
}

/// The second authentication command, sent only on a 381 answer.
pub fn auth_pass_command(pass: &[u8]) -> (r: Vec<u8>)
    ensures
        r@ == spec_auth_pass_command(pass@),
{
    let mut out: Vec<u8> = Vec::new();
    push_all(&mut out, "AUTHINFO PASS ".as_bytes());
    push_all(&mut out, pass);
    push_all(&mut out, "\r\n".as_bytes());
    out
}

/// The health-check command.
pub fn noop_command() -> (r: Vec<u8>)
    ensures
        r@ == "NOOP\r\n".spec_bytes(),
{
    let mut out: Vec<u8> = Vec::new();
    push_all(&mut out, "NOOP\r\n".as_bytes());
    out
}

/// The goodbye command.
pub fn quit_command() -> (r: Vec<u8>)
    ensures
        r@ == "QUIT\r\n".spec_bytes(),
{
    let mut out: Vec<u8> = Vec::new();
    push_all(&mut out, "QUIT\r\n".as_bytes());
    out
}

/// Pipelining sends every `BODY` command before reading any response.
pub fn plan_pipeline_commands(requests: &Vec<SegmentRequest>) -> (r: Vec<Vec<u8>>)
    ensures
        r@.len() == requests@.len(),
        forall|i: int| 0 <= i < r@.len() ==> r@[i]@ == spec_body_command(
            #[trigger] requests@[i].message_id@,
        ),
{
    let mut r: Vec<Vec<u8>> = Vec::new();
    let n = requests.len();
    let mut i: usize = 0;
    while i < n
        invariant
            i <= n,
            n == requests@.len(),
            r@.len() == i,
            forall|j: int| 0 <= j < i ==> r@[j]@ == spec_body_command(
                #[trigger] requests@[j].message_id@,
            ),
        decreases n - i,
    {
        r.push(body_command(requests[i].message_id.as_slice()));
        i += 1;
    }
    r
}

// --- group caching ------------------------------------------------------

/// A `GROUP` command is sent only when the cached group differs.
pub fn needs_group_select(current: &Option<Vec<u8>>, group: &[u8]) -> (r: bool)
    ensures
        r == match current {
            Some(g) => g@ != group@,
            None => true,
        },
{
    match current {
        Some(g) => !crate::text::eq_bytes(g.as_slice(), group),
        None => true,
    }
}

// --- body framing -------------------------------------------------------

/// Bytes that `\n`-terminated reads may leave at the end of a line.
pub open spec fn spec_strip_eol(l: Seq<u8>) -> Seq<u8> {
    if l.len() >= 2 && l[l.len() - 2] == '\r' as u8 && l[l.len() - 1] == '\n' as u8 {
        l.take(l.len() - 2)
    } else if l.len() >= 1 && l[l.len() - 1] == '\n' as u8 {
        l.take(l.len() - 1)
    } else {
        l
    }
}

/// Dot-unstuffing: a line sent as `..x` means `.x`.
pub open spec fn spec_unstuff(l: Seq<u8>) -> Seq<u8> {
    if l.len() >= 2 && l[0] == '.' as u8 && l[1] == '.' as u8 {
        l.skip(1)
    } else {
        l
    }
}

/// A line of a multi-line body is the terminator `.` alone, or data.
pub open spec fn spec_is_terminator(l: Seq<u8>) -> bool {
    l == ".\r\n".spec_bytes() || l == ".\n".spec_bytes()
}

/// What one raw body line contributes to the article body handed to the
/// decoder: unstuffed, with line endings normalised to a single `\n`.
pub open spec fn spec_body_contribution(l: Seq<u8>) -> Seq<u8> {
    spec_strip_eol(spec_unstuff(l)) + seq!['\n' as u8]
}

/// One line read from a dot-terminated body.
pub enum BodyLine {
    /// The lone `.`: the body is complete.
    Terminator,
    /// A data line, unstuffed and normalised.
    Data(Vec<u8>),
}

/// Classify one raw line of a dot-terminated multi-line response and
/// normalise it for the decoder.
pub fn process_body_line(line: &[u8]) -> (r: BodyLine)
    ensures
        spec_is_terminator(line@) ==> r is Terminator,
        !spec_is_terminator(line@) ==> match r {
            BodyLine::Data(d) => d@ == spec_body_contribution(line@),
            BodyLine::Terminator => false,
        },
{
    if crate::text::eq_bytes(line, ".\r\n".as_bytes()) || crate::text::eq_bytes(
        line,
        ".\n".as_bytes(),
    ) {
        return BodyLine::Terminator;
    }
    let n = line.len();
    let start: usize = if n >= 2 && line[0] == '.' as u8 && line[1] == '.' as u8 {
        1
    } else {
        0
    };
    let ghost u = spec_unstuff(line@);
    proof {
        assert(line@.skip(1) =~= line@.subrange(1, n as int));
    }
    let end: usize = if n - start >= 2 && line[n - 2] == '\r' as u8 && line[n - 1] == '\n' as u8 {
        n - 2
    } else if n - start >= 1 && line[n - 1] == '\n' as u8 {
        n - 1
    } else {
        n
    };
    let mut d = crate::text::sub_vec(line, start, end);
    proof {
        assert(d@ =~= spec_strip_eol(u));
    }
    d.push('\n' as u8);
    proof {
        assert(d@ =~= spec_body_contribution(line@));
    }
    BodyLine::Data(d)
}

// --- authentication and redaction ---------------------------------------

/// ASCII whitespace, as the redaction rule sees it.
pub open spec fn spec_is_ws(c: u8) -> bool {
    c == ' ' as u8 || (9 <= c && c <= 13)
}

/// Length of the leading whitespace-free run of `s`.
pub open spec fn spec_token_len(s: Seq<u8>) -> int
    decreases s.len(),
{
    if s.len() == 0 || spec_is_ws(s[0]) {
        0
    } else {
        1 + spec_token_len(s.skip(1))
    }
}

/// The first whitespace-delimited token of `s`, if any.
pub open spec fn spec_first_token(s: Seq<u8>) -> Option<Seq<u8>>
    decreases s.len(),
{
    if s.len() == 0 {
        None
    } else if spec_is_ws(s[0]) {
        spec_first_token(s.skip(1))
    } else {
        Some(s.take(spec_token_len(s)))
    }
}

/// What an authentication response is reduced to before it may be
/// logged: its first token (the status code), or `Unknown`.
pub open spec fn spec_redact(s: Seq<u8>) -> Seq<u8> {
    match spec_first_token(s) {
        Some(t) => t,
        None => "Unknown".spec_bytes(),
    }
}

proof fn lemma_token_len_bounds(s: Seq<u8>)
    ensures
        0 <= spec_token_len(s) <= s.len(),
        forall|i: int| 0 <= i < spec_token_len(s) ==> !spec_is_ws(#[trigger] s[i]),
        spec_token_len(s) < s.len() ==> spec_is_ws(s[spec_token_len(s)]),
    decreases s.len(),
{
    if s.len() == 0 || spec_is_ws(s[0]) {
    } else {
        lemma_token_len_bounds(s.skip(1));
        assert forall|i: int| 0 <= i < spec_token_len(s) implies !spec_is_ws(#[trigger] s[i]) by {
            if i > 0 {
                assert(s.skip(1)[i - 1] == s[i]);
            }
        }
        if spec_token_len(s) < s.len() {
            assert(s.skip(1)[spec_token_len(s) - 1] == s[spec_token_len(s)]);
        }
    }
}

/// Redact a server response for logging: keep only its first
/// whitespace-delimited token (in practice, the status code).
pub fn redact_auth_response(line: &[u8]) -> (r: Vec<u8>)
    ensures
        r@ == spec_redact(line@),
{
    let n = line.len();
    let mut start: usize = 0;
    proof {
        assert(line@.skip(0) =~= line@);
    }
    while start < n && (line[start] == ' ' as u8 || (9 <= line[start] && line[start] <= 13))
        invariant
            start <= n,
            n == line@.len(),
            forall|k: int| 0 <= k < start ==> spec_is_ws(#[trigger] line@[k]),
            spec_first_token(line@) == spec_first_token(line@.skip(start as int)),
        decreases n - start,
    {
        proof {
            assert(line@.skip(start as int).skip(1) =~= line@.skip(start + 1));
        }
        start += 1;
    }
    if start == n {
        proof {
            assert(line@.skip(n as int) =~= Seq::<u8>::empty());
        }
        let mut r: Vec<u8> = Vec::new();
        push_all(&mut r, "Unknown".as_bytes());
        return r;
    }
    let ghost u = line@.skip(start as int);
    let mut end: usize = start;
    while end < n && !(line[end] == ' ' as u8 || (9 <= line[end] && line[end] <= 13))
        invariant
            start <= end <= n,
            n == line@.len(),
            u == line@.skip(start as int),
            forall|k: int| start <= k < end ==> !spec_is_ws(#[trigger] line@[k]),
        decreases n - end,
    {
        end += 1;
    }
    proof {
        lemma_token_len_bounds(u);
        assert(forall|k: int| 0 <= k < u.len() ==> u[k] == line@[start + k]);
        // The scan stopped exactly at the token length.
        if end < n {
            assert(spec_is_ws(line@[end as int]));
        }
        assert(spec_token_len(u) == end - start) by {
            let tl = spec_token_len(u);
            if tl < end - start {
                assert(spec_is_ws(u[tl]));
                assert(u[tl] == line@[start + tl]);
            }
            if tl > end - start {
                assert(!spec_is_ws(u[end - start]));
                assert(u[end - start] == line@[end as int]);
            }
        }
        assert(!spec_is_ws(u[0]));
    }
    let r = crate::text::sub_vec(line, start, end);
    proof {
        assert(r@ =~= u.take(spec_token_len(u)));
    }
    r
}

/// The redaction never contains whitespace.
pub proof fn lemma_redaction_no_whitespace(line: Seq<u8>)
    ensures
        forall|i: int| 0 <= i < spec_redact(line).len() ==> !spec_is_ws(
            #[trigger] spec_redact(line)[i],
        ),
    decreases line.len(),
{
    if line.len() == 0 {
        unknown_has_no_ws();
    } else if spec_is_ws(line[0]) {
        lemma_redaction_no_whitespace(line.skip(1));
        assert(spec_redact(line) == spec_redact(line.skip(1)));
    } else {
        lemma_token_len_bounds(line);
        assert(spec_redact(line) == line.take(spec_token_len(line)));
        assert forall|i: int| 0 <= i < spec_redact(line).len() implies !spec_is_ws(
            #[trigger] spec_redact(line)[i],
        ) by {
            assert(spec_redact(line)[i] == line[i]);
        }
    }
}

proof fn unknown_has_no_ws()
    ensures
        forall|i: int| 0 <= i < "Unknown".spec_bytes().len() ==> !spec_is_ws(
            #[trigger] "Unknown".spec_bytes()[i],
        ),
{
    reveal_strlit("Unknown");
    broadcast use vstd::string::is_ascii_spec_bytes;

    assert("Unknown"@.len() == 7);
    assert(vstd::string::is_ascii("Unknown"));
    assert forall|i: int| 0 <= i < "Unknown".spec_bytes().len() implies !spec_is_ws(
        #[trigger] "Unknown".spec_bytes()[i],
    ) by {
        assert("Unknown".spec_bytes()[i] == "Unknown"@[i] as u8);
    }
}

/// The redaction depends on nothing past the first token: two responses
/// with the same first token redact identically, so what a server may
/// echo after the status code never reaches a log line.
pub proof fn lemma_redaction_first_token_only(l1: Seq<u8>, l2: Seq<u8>)
    requires
        spec_first_token(l1) == spec_first_token(l2),
    ensures
        spec_redact(l1) == spec_redact(l2),
{
}

/// A secret that holds a whitespace byte, or that is longer than the
/// redacted token, cannot occur in the redaction.
pub proof fn lemma_redaction_conceals(line: Seq<u8>, secret: Seq<u8>)
    requires
        (exists|i: int| 0 <= i < secret.len() && spec_is_ws(#[trigger] secret[i])) || secret.len()
            > spec_redact(line).len(),
    ensures
        !crate::text::spec_contains(spec_redact(line), secret),
{
    let r = spec_redact(line);
    lemma_redaction_no_whitespace(line);
    assert forall|p: int| !crate::text::spec_match_at(r, secret, p) by {
        if crate::text::spec_match_at(r, secret, p) {
            assert(secret.len() <= r.len());
            let i = choose|i: int| 0 <= i < secret.len() && spec_is_ws(#[trigger] secret[i]);
            assert(r.subrange(p, p + secret.len())[i] == r[p + i]);
            assert(!spec_is_ws(r[p + i]));
        }
    }
}

/// What the client does after an authentication response.
pub enum AuthStep {
    /// 381: the server wants the password next.
    SendPass,
    /// 281: authenticated.
    Accepted,
    /// Anything else: fail, logging only the redacted token.
    Rejected(Vec<u8>),
}

/// Decide on the answer to `AUTHINFO USER`.
pub fn auth_user_decision(line: &[u8]) -> (r: AuthStep)
    ensures
        spec_has_code(line@, 381) ==> r is SendPass,
        spec_has_code(line@, 281) && !spec_has_code(line@, 381) ==> r is Accepted,
        !spec_has_code(line@, 381) && !spec_has_code(line@, 281) ==> match r {
            AuthStep::Rejected(m) => m@ == spec_redact(line@),
            _ => false,
        },
{
    match response_code(line) {
        Some(c) if c == 381 => AuthStep::SendPass,
        Some(c) if c == 281 => AuthStep::Accepted,
        _ => AuthStep::Rejected(redact_auth_response(line)),
    }
}

/// Decide on the answer to `AUTHINFO PASS`: only 281 succeeds.
pub fn auth_pass_decision(line: &[u8]) -> (r: AuthStep)
    ensures
        spec_has_code(line@, 281) ==> r is Accepted,
        !spec_has_code(line@, 281) ==> match r {
            AuthStep::Rejected(m) => m@ == spec_redact(line@),
            _ => false,
        },
{
    match response_code(line) {
        Some(c) if c == 281 => AuthStep::Accepted,
        _ => AuthStep::Rejected(redact_auth_response(line)),
    }
}

// --- pipelined reads ----------------------------------------------------

/// What the reader asks of the transport after classifying one status
/// line.
pub enum ReadDirective {
    /// 222: a dot-terminated body follows; hand it to `on_body`.
    ReadBody,
    /// 430 or 423: no body follows; the article is gone.
    Next,
    /// Any other code: a body may follow; drain one dot-terminated body
    /// to keep later responses aligned, then continue.
    DrainBody,
}

/// Consumes the responses of one pipelined batch, in request order.
///
/// The transport layer feeds it one status line per request, bodies where
/// asked, and a single failure notice on timeout or transport error; the
/// reader owns every decision about what those bytes mean.
pub struct PipelineReader {
    pub requests: Vec<SegmentRequest>,
    pub results: Vec<(u32, Option<Vec<u8>>)>,
    pub poisoned: bool,
    pub awaiting_body: bool,
}

impl PipelineReader {
    /// Results so far line up one-to-one with the leading requests.
    /// The results with the next request recorded as failed.
    pub open spec fn spec_push_none(self) -> Seq<(u32, Option<Vec<u8>>)> {
        self.results@.push((self.requests@[self.results@.len() as int].segment_number, None))
    }

    pub open spec fn wf(self) -> bool {
        self.results@.len() <= self.requests@.len() && (forall|i: int|
            0 <= i < self.results@.len() ==> #[trigger] self.results@[i].0
                == self.requests@[i].segment_number) && (self.awaiting_body
            ==> self.results@.len() < self.requests@.len()) && (self.poisoned
            ==> self.results@.len() == self.requests@.len() && !self.awaiting_body)
    }

    pub fn new(requests: Vec<SegmentRequest>) -> (r: Self)
        ensures
            r.wf(),
            r.requests@ == requests@,
            r.results@.len() == 0,
            !r.poisoned,
            !r.awaiting_body,
    {
        PipelineReader { requests, results: Vec::new(), poisoned: false, awaiting_body: false }
    }

    /// Are all responses consumed (or the connection given up on)?
    pub fn is_done(&self) -> (r: bool)
        ensures
            r == (self.results@.len() == self.requests@.len()),
    {
        self.results.len() == self.requests.len()
    }

    /// Classify the status line of the next response.
    pub fn on_status(&mut self, line: &[u8]) -> (d: ReadDirective)
        requires
            old(self).wf(),
            !old(self).awaiting_body,
            !old(self).poisoned,
            old(self).results@.len() < old(self).requests@.len(),
        ensures
            final(self).wf(),
            final(self).requests@ == old(self).requests@,
            !final(self).poisoned,
            spec_has_code(line@, 222) ==> d is ReadBody && final(self).awaiting_body
                && final(self).results@ == old(self).results@,
            (spec_has_code(line@, 430) || spec_has_code(line@, 423)) && !spec_has_code(line@, 222)
                ==> d is Next && !final(self).awaiting_body
                && final(self).results@ == old(self).spec_push_none(),
            !spec_has_code(line@, 222) && !spec_has_code(line@, 430) && !spec_has_code(line@, 423)
                ==> d is DrainBody && !final(self).awaiting_body
                && final(self).results@ == old(self).spec_push_none(),
    {
        let k = self.results.len();
        match response_code(line) {
            Some(c) if c == 222 => {
                self.awaiting_body = true;
                ReadDirective::ReadBody
            },
            Some(c) if c == 430 || c == 423 => {
                let n = self.requests[k].segment_number;
                self.results.push((n, None));
                ReadDirective::Next
            },
            _ => {
                let n = self.requests[k].segment_number;
                self.results.push((n, None));
                ReadDirective::DrainBody
            },
        }
    }

    /// Record the dot-terminated body of a 222 response, decoded.
    pub fn on_body(&mut self, body: &[u8])
        requires
            old(self).wf(),
            old(self).awaiting_body,
        ensures
            final(self).wf(),
            final(self).requests@ == old(self).requests@,
            final(self).poisoned == old(self).poisoned,
            !final(self).awaiting_body,
            final(self).results@.len() == old(self).results@.len() + 1,
            forall|i: int| 0 <= i < old(self).results@.len()
                ==> #[trigger] final(self).results@[i] == old(self).results@[i],
            final(self).results@.last().0 == old(self).requests@[old(
                self,
            ).results@.len() as int].segment_number,
            match final(self).results@.last().1 {
                Some(v) => v@ == spec_decode(body@),
                None => false,
            },
    {
        let k = self.results.len();
        let n = self.requests[k].segment_number;
        let decoded = decode_yenc(body);
        self.results.push((n, Some(decoded)));
        self.awaiting_body = false;
    }

    /// A read timed out or the transport failed: stop reading, mark every
    /// remaining request failed, and poison the connection so that it is
    /// never returned to the pool.
    pub fn on_transport_failure(&mut self)
        requires
            old(self).wf(),
        ensures
            final(self).wf(),
            final(self).requests@ == old(self).requests@,
            final(self).poisoned,
            final(self).results@.len() == final(self).requests@.len(),
            forall|i: int| 0 <= i < old(self).results@.len()
                ==> #[trigger] final(self).results@[i] == old(self).results@[i],
            forall|i: int| old(self).results@.len() <= i < final(self).results@.len()
                ==> #[trigger] final(self).results@[i].1 is None,
    {
        self.awaiting_body = false;
        let total = self.requests.len();
        while self.results.len() < total
            invariant
                self.requests@.len() == total,
                self.results@.len() <= total,
                old(self).results@.len() <= self.results@.len(),
                forall|i: int| 0 <= i < self.results@.len() ==> #[trigger] self.results@[i].0
                    == self.requests@[i].segment_number,
                forall|i: int| 0 <= i < old(self).results@.len() && i < self.results@.len()
                    ==> self.results@[i] == old(self).results@[i],
                forall|i: int| old(self).results@.len() <= i < self.results@.len()
                    ==> #[trigger] self.results@[i].1 is None,
                self.awaiting_body == false,
                self.requests@ == old(self).requests@,
            decreases total - self.results.len(),
        {
            let k = self.results.len();
            let n = self.requests[k].segment_number;
            self.results.push((n, None));
        }
        self.poisoned = true;
    }

    /// Hand the finished batch back: one result per request, in request
    /// order, and whether the connection must be discarded.
    pub fn into_results(self) -> (r: (Vec<(u32, Option<Vec<u8>>)>, bool))
        requires
            self.wf(),
            self.results@.len() == self.requests@.len(),
        ensures
            r.0@.len() == self.requests@.len(),
            forall|i: int| 0 <= i < r.0@.len() ==> #[trigger] r.0@[i].0
                == self.requests@[i].segment_number,
            r.0@ == self.results@,
            r.1 == self.poisoned,
    {
        (self.results, self.poisoned)
    }
}

} // verus!
