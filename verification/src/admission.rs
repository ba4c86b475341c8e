//! What the service does with a request before handling it: count it against
//! its client's window, then pass it on with the limiter's headers, or answer
//! it with 429 Too Many Requests.

use vstd::prelude::*;
use crate::rate_limiter::{expired, grant, headroom, live_window, nanos, window_of, RateLimiter};
use crate::response::{object, text, text_field, ApiResponse, BodyView, Field};
use crate::text::{decimal, decimal_string, push_text};

verus! {

/// A response header.
pub struct Header {
    pub name: String,
    pub value: String,
}

impl View for Header {
    type V = (Seq<char>, Seq<char>);

    open spec fn view(&self) -> (Seq<char>, Seq<char>) {
        (self.name@, self.value@)
    }
}

/// The decision on an incoming request.
pub enum Admission {
    /// Handle the request, and add these headers to its response.
    Forward(Vec<Header>),
    /// Do not handle the request: send this response, with these headers.
    Refuse(ApiResponse, Vec<Header>),
}

/// The model of a decision.
pub enum AdmissionView {
    Forward(Seq<(Seq<char>, Seq<char>)>),
    Refuse((u16, BodyView), Seq<(Seq<char>, Seq<char>)>),
}

impl View for Admission {
    type V = AdmissionView;

    open spec fn view(&self) -> AdmissionView {
        match self {
            Admission::Forward(h) => AdmissionView::Forward(h@.map_values(|x: Header| x@)),
            Admission::Refuse(r, h) => AdmissionView::Refuse(r@, h@.map_values(|x: Header| x@)),
        }
    }
}

/// The headers of a request that is let through: the limit and how many more
/// requests the client may make.
pub open spec fn forward_headers(limit: nat, remaining: nat) -> Seq<(Seq<char>, Seq<char>)> {
    seq![("X-RateLimit-Limit"@, decimal(limit)), ("X-RateLimit-Remaining"@, decimal(remaining))]
}

/// The text that explains a refusal.
pub open spec fn refusal_message(limit: nat, window: nat) -> Seq<char> {
    "Rate limit of "@ + decimal(limit) + " req/"@ + decimal(window) + "s exceeded. Retry after "@
        + decimal(window) + "s."@
}

/// The answer to a refused request: 429 with an error object.
pub open spec fn refusal_response(limit: nat, window: nat) -> (u16, BodyView) {
    (429, BodyView::Object(seq![
        text("error"@, "Too Many Requests"@),
        text("message"@, refusal_message(limit, window)),
    ]))
}

/// The headers of a refused request: when to retry, the limit, and that no
/// request remains.
pub open spec fn refusal_headers(limit: nat, window: nat) -> Seq<(Seq<char>, Seq<char>)> {
    seq![
        ("Retry-After"@, decimal(window)),
        ("X-RateLimit-Limit"@, decimal(limit)),
        ("X-RateLimit-Remaining"@, "0"@),
    ]
}

/// The decision for a request that the limiter granted (or not), given the
/// headroom read after granting, the limit and the window in seconds.
pub open spec fn decision(allowed: bool, remaining: nat, limit: nat, window: nat) -> AdmissionView {
    if allowed {
        AdmissionView::Forward(forward_headers(limit, remaining))
    } else {
        AdmissionView::Refuse(refusal_response(limit, window), refusal_headers(limit, window))
    }
}

fn header(name: &str, value: String) -> (h: Header)
    ensures
        h@ == (name@, value@),
{
    Header { name: name.to_owned(), value }
}

/// Builds the decision (see `decision`).
pub fn admission_decision(allowed: bool, remaining: usize, limit: usize, window: u64) -> (a: Admission)
    ensures
        a@ == decision(allowed, remaining as nat, limit as nat, window as nat),
{
    if allowed {
        let mut headers: Vec<Header> = Vec::new();
        headers.push(header("X-RateLimit-Limit", decimal_string(limit as u64)));
        headers.push(header("X-RateLimit-Remaining", decimal_string(remaining as u64)));
        assert(headers@.map_values(|x: Header| x@) =~= forward_headers(limit as nat, remaining as nat));
        Admission::Forward(headers)
    } else {
        let limit_text = decimal_string(limit as u64);
        let window_text = decimal_string(window);
        let mut message = String::new();
        push_text(&mut message, "Rate limit of ");
        push_text(&mut message, limit_text.as_str());
        push_text(&mut message, " req/");
        push_text(&mut message, window_text.as_str());
        push_text(&mut message, "s exceeded. Retry after ");
        push_text(&mut message, window_text.as_str());
        push_text(&mut message, "s.");
        assert(message@ =~= refusal_message(limit as nat, window as nat));
        let mut fields: Vec<Field> = Vec::new();
        fields.push(text_field("error", "Too Many Requests".to_owned()));
        fields.push(text_field("message", message));
        assert(fields@.map_values(|f: Field| f@) =~= seq![
            text("error"@, "Too Many Requests"@),
            text("message"@, refusal_message(limit as nat, window as nat)),
        ]);
        let response = ApiResponse { status: 429, body: object(fields) };
        let mut headers: Vec<Header> = Vec::new();
        headers.push(header("Retry-After", window_text));
        headers.push(header("X-RateLimit-Limit", limit_text));
        headers.push(header("X-RateLimit-Remaining", "0".to_owned()));
        assert(headers@.map_values(|x: Header| x@) =~= refusal_headers(limit as nat, window as nat));
        Admission::Refuse(response, headers)
    }
}

/// The decision on a request of `key`, and the windows afterwards, where the
/// limiter's clock read `granted_at` when the request was counted and
/// `read_at` when the headroom was read.
pub open spec fn check_outcome(
    table: Map<Seq<char>, Seq<u128>>,
    key: Seq<char>,
    limit: nat,
    window: u64,
    granted_at: u128,
    read_at: u128,
) -> (AdmissionView, Map<Seq<char>, Seq<u128>>) {
    let g = grant(window_of(table, key), granted_at, nanos(window), limit as int);
    if g.0 {
        (
            decision(true, headroom(g.1, read_at, nanos(window), limit as int) as nat, limit, window as nat),
            table.insert(key, live_window(g.1, read_at, nanos(window))),
        )
    } else {
        (decision(false, 0, limit, window as nat), table.insert(key, g.1))
    }
}

impl RateLimiter {
    /// Counts a request of `key` and decides on it: where the limiter grants
    /// it, reads the key's headroom (at a second reading of the clock) and
    /// lets it through; else refuses it. The readings never go below the
    /// latest one used before.
    pub fn check_request(&mut self, key: &str) -> (a: Admission)
        ensures
            final(self).limit() == old(self).limit(),
            final(self).window() == old(self).window(),
            old(self).wf() ==> final(self).wf(),
            old(self).ordered() ==> final(self).ordered(),
            exists|granted_at: u128, read_at: u128| {
                &&& old(self).latest_reading() <= granted_at <= read_at
                &&& final(self).latest_reading() == read_at
                &&& (a@, final(self).table()) == #[trigger] check_outcome(
                    old(self).table(),
                    key@,
                    old(self).limit() as nat,
                    old(self).window(),
                    granted_at,
                    read_at,
                )
            },
    {
        let limit = self.limit();
        let window = self.window();
        let granted_at = self.next_reading();
        if self.is_allowed_at(key, granted_at) {
            let read_at = self.next_reading();
            let remaining = self.remaining_at(key, read_at);
            let a = admission_decision(true, remaining, limit, window);
            assert(self.table() =~= old(self).table().insert(
                key@,
                live_window(
                    grant(window_of(old(self).table(), key@), granted_at, nanos(window), limit as int).1,
                    read_at,
                    nanos(window),
                ),
            ));
            assert((a@, self.table()) == check_outcome(old(self).table(), key@, limit as nat, window, granted_at, read_at));
            a
        } else {
            let a = admission_decision(false, 0, limit, window);
            assert((a@, self.table()) == check_outcome(old(self).table(), key@, limit as nat, window, granted_at, granted_at));
            a
        }
    }
}

/// Within one window, the `X-RateLimit-Remaining` header drops by exactly one
/// per request: a key whose recorded requests are all still live when the
/// headroom is read, and fewer than the limit, has this request passed with
/// the limit less (its recorded requests plus this one) remaining, and
/// afterwards holds its recorded requests plus this one.
pub proof fn law_remaining_header_counts_down(
    table: Map<Seq<char>, Seq<u128>>,
    key: Seq<char>,
    limit: nat,
    window: u64,
    granted_at: u128,
    read_at: u128,
)
    requires
        granted_at <= read_at,
        forall|i: int| 0 <= i < window_of(table, key).len() ==> !expired(#[trigger] window_of(table, key)[i], read_at, nanos(window)),
        !expired(granted_at, read_at, nanos(window)),
        window_of(table, key).len() < limit,
    ensures
        check_outcome(table, key, limit, window, granted_at, read_at).0
            == decision(true, (limit - window_of(table, key).len() - 1) as nat, limit, window as nat),
        window_of(check_outcome(table, key, limit, window, granted_at, read_at).1, key)
            == window_of(table, key).push(granted_at),
{
    let win = window_of(table, key);
    let w = nanos(window);
    if win.len() > 0 {
        assert(!expired(win[0], read_at, w));
        assert(!expired(win[0], granted_at, w));
    }
    assert(live_window(win, granted_at, w) == win);
    let g = win.push(granted_at);
    assert(g[0] == if win.len() > 0 { win[0] } else { granted_at });
    assert(!expired(g[0], read_at, w));
    assert(live_window(g, read_at, w) == g);
}

} // verus!
