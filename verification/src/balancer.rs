//! The decisions of a small HTTP load balancer: which upstream server a
//! connection goes to, which servers count as alive, when a client has asked
//! too often, and how a failure is answered. Sockets and timers stay with the
//! embedding program.

use vstd::prelude::*;
use vstd::string::*;
use crate::chance::random_below;
use crate::text::str_eq;

verus! {

/// Status sent when no upstream server could be reached or answered.
pub const BAD_GATEWAY: u16 = 502;

/// Status sent when a request could not be understood.
pub const BAD_REQUEST: u16 = 400;

/// Status sent when the body of a request is too large.
pub const PAYLOAD_TOO_LARGE: u16 = 413;

/// Status sent when the connection to the client failed.
pub const SERVICE_UNAVAILABLE: u16 = 503;

/// Status sent when a client has asked too often.
pub const TOO_MANY_REQUESTS: u16 = 429;

/// Status of an upstream server that is alive.
pub const OK: u16 = 200;

/// How many requests one client address has made in the current window.
#[derive(Clone, Debug, PartialEq, Eq)]
pub struct IpCount {
    /// The client's address.
    pub ip: String,
    /// Its requests so far.
    pub count: usize,
}

/// An [`IpCount`] with the address as a sequence of characters.
pub struct IpCountView {
    pub ip: Seq<char>,
    pub count: usize,
}

impl View for IpCount {
    type V = IpCountView;

    open spec fn view(&self) -> IpCountView {
        IpCountView { ip: self.ip@, count: self.count }
    }
}

/// The entries of a table of counts.
pub open spec fn counts_of(counts: Seq<IpCount>) -> Seq<IpCountView> {
    counts.map_values(|c: IpCount| c@)
}

/// Entry `i` is the first entry for the address `ip`.
pub open spec fn first_entry_for(counts: Seq<IpCountView>, i: int, ip: Seq<char>) -> bool {
    &&& 0 <= i < counts.len()
    &&& counts[i].ip == ip
    &&& forall|j: int| 0 <= j < i ==> (#[trigger] counts[j]).ip != ip
}

/// The number of requests recorded for `ip`: the count of its first entry,
/// zero if it has none.
pub open spec fn requests_of(counts: Seq<IpCountView>, ip: Seq<char>) -> nat {
    if exists|i: int| first_entry_for(counts, i, ip) {
        counts[choose|i: int| first_entry_for(counts, i, ip)].count as nat
    } else {
        0
    }
}

/// The address `ip` has an entry.
pub open spec fn known(counts: Seq<IpCountView>, ip: Seq<char>) -> bool {
    exists|i: int| first_entry_for(counts, i, ip)
}

fn find(counts: &Vec<IpCount>, ip: &str) -> (r: Option<usize>)
    ensures
        match r {
            Some(i) => first_entry_for(counts_of(counts@), i as int, ip@) && requests_of(
                counts_of(counts@),
                ip@,
            ) == counts@[i as int].count,
            None => !known(counts_of(counts@), ip@) && forall|j: int|
                0 <= j < counts@.len() ==> (#[trigger] counts@[j]).ip@ != ip@,
        },
{
    let ghost views = counts_of(counts@);
    let mut i: usize = 0;
    while i < counts.len()
        invariant
            i <= counts@.len(),
            views == counts_of(counts@),
            forall|j: int| 0 <= j < i ==> (#[trigger] views[j]).ip != ip@,
        decreases counts@.len() - i,
    {
        assert(views[i as int] == counts@[i as int]@);
        if str_eq(counts[i].ip.as_str(), ip) {
            proof {
                assert(first_entry_for(views, i as int, ip@));
                let c = choose|c: int| first_entry_for(views, c, ip@);
                assert(c == i) by {
                    if c < i {
                        assert(views[c].ip != ip@);
                    }
                    if i < c {
                        assert(views[i as int].ip != ip@);
                    }
                }
            }
            return Some(i);
        }
        i += 1;
    }
    proof {
        assert forall|c: int| !first_entry_for(views, c, ip@) by {
            if 0 <= c < views.len() {
                assert(views[c].ip != ip@);
            }
        }
        assert forall|j: int| 0 <= j < counts@.len() implies (#[trigger] counts@[j]).ip@ != ip@ by {
            assert(views[j] == counts@[j]@);
        }
    }
    None
}

/// Records one more request of the client `ip`, unless requests are not
/// limited (`max_requests_per_minute` is zero).
pub fn update_ip_info(ip: &str, counts: &mut Vec<IpCount>, max_requests_per_minute: usize)
    requires
        requests_of(counts_of(old(counts)@), ip@) < usize::MAX,
    ensures
        max_requests_per_minute == 0 ==> final(counts)@ == old(counts)@,
        max_requests_per_minute != 0 ==> {
            &&& requests_of(counts_of(final(counts)@), ip@) == requests_of(
                counts_of(old(counts)@),
                ip@,
            ) + 1
            &&& forall|other: Seq<char>|
                other != ip@ ==> requests_of(counts_of(final(counts)@), other) == requests_of(
                    counts_of(old(counts)@),
                    other,
                )
        },
{
    if max_requests_per_minute == 0 {
        return ;
    }
    let ghost before = counts_of(counts@);
    match find(counts, ip) {
        Some(i) => {
            let count = counts[i].count;
            counts.set(i, IpCount { ip: ip.to_owned(), count: count + 1 });
            proof {
                let after = counts_of(counts@);
                assert(after.len() == before.len());
                assert forall|j: int| 0 <= j < after.len() implies (#[trigger] after[j]).ip
                    == before[j].ip by {
                    assert(after[j] == counts@[j]@);
                    assert(before[j] == old(counts)@[j]@);
                }
                lemma_same_addresses(before, after, ip@);
                assert(first_entry_for(after, i as int, ip@));
                assert(after[i as int].count == count + 1);
                assert forall|other: Seq<char>| other != ip@ implies requests_of(after, other)
                    == requests_of(before, other) by {
                    lemma_same_addresses(before, after, other);
                    if known(before, other) {
                        let c = choose|c: int| first_entry_for(before, c, other);
                        assert(c != i);
                        assert(after[c] == counts@[c]@);
                        assert(before[c] == old(counts)@[c]@);
                    }
                }
            }
        },
        None => {
            counts.push(IpCount { ip: ip.to_owned(), count: 1 });
            proof {
                let after = counts_of(counts@);
                let last = before.len() as int;
                assert(after.len() == last + 1);
                assert(after[last] == counts@[last]@);
                assert forall|j: int| 0 <= j < last implies (#[trigger] after[j]) == before[j] by {
                    assert(after[j] == counts@[j]@);
                    assert(before[j] == old(counts)@[j]@);
                }
                assert forall|j: int| 0 <= j < last implies (#[trigger] after[j]).ip != ip@ by {
                    assert(old(counts)@[j].ip@ != ip@);
                }
                assert(first_entry_for(after, last, ip@));
                let c = choose|c: int| first_entry_for(after, c, ip@);
                assert(c == last) by {
                    if c < last {
                        assert(after[c].ip != ip@);
                    }
                }
                assert forall|other: Seq<char>| other != ip@ implies requests_of(after, other)
                    == requests_of(before, other) by {
                    if known(before, other) {
                        let b = choose|b: int| first_entry_for(before, b, other);
                        assert(first_entry_for(after, b, other)) by {
                            assert forall|j: int| 0 <= j < b implies (#[trigger] after[j]).ip
                                != other by {
                                assert(after[j] == before[j]);
                            }
                        }
                        let a = choose|a: int| first_entry_for(after, a, other);
                        assert(a == b) by {
                            if a < b {
                                assert(after[a] == before[a]);
                                assert(before[a].ip != other);
                            }
                            if b < a {
                                assert(after[b].ip != other);
                            }
                        }
                    } else if known(after, other) {
                        let a = choose|a: int| first_entry_for(after, a, other);
                        assert(a < last);
                        assert(first_entry_for(before, a, other)) by {
                            assert(after[a] == before[a]);
                            assert forall|j: int| 0 <= j < a implies (#[trigger] before[j]).ip
                                != other by {
                                assert(after[j] == before[j]);
                            }
                        }
                    }
                }
            }
        },
    }
}

/// Two tables that list the same addresses in the same order have their
/// first entries for an address at the same place.
pub proof fn lemma_same_addresses(a: Seq<IpCountView>, b: Seq<IpCountView>, ip: Seq<char>)
    requires
        a.len() == b.len(),
        forall|j: int| 0 <= j < a.len() ==> (#[trigger] b[j]).ip == a[j].ip,
    ensures
        known(a, ip) == known(b, ip),
        known(a, ip) ==> (choose|i: int| first_entry_for(a, i, ip)) == (choose|i: int|
            first_entry_for(b, i, ip)),
{
    if known(a, ip) {
        let i = choose|i: int| first_entry_for(a, i, ip);
        assert(b[i].ip == a[i].ip);
        assert(first_entry_for(b, i, ip)) by {
            assert forall|j: int| 0 <= j < i implies (#[trigger] b[j]).ip != ip by {
                assert(b[j].ip == a[j].ip);
            }
        }
        let k = choose|k: int| first_entry_for(b, k, ip);
        assert(k == i) by {
            if k < i {
                assert(b[k].ip == a[k].ip);
            }
            if i < k {
                assert(b[i].ip != ip);
            }
        }
    } else if known(b, ip) {
        let k = choose|k: int| first_entry_for(b, k, ip);
        assert(b[k].ip == a[k].ip);
        assert(first_entry_for(a, k, ip)) by {
            assert forall|j: int| 0 <= j < k implies (#[trigger] a[j]).ip != ip by {
                assert(b[j].ip == a[j].ip);
            }
        }
    }
}

/// Tells whether the client `ip` is over the limit: requests are limited and
/// it has made more than `max_requests_per_minute` of them.
pub fn check_ip_rate_limit(ip: &str, counts: &Vec<IpCount>, max_requests_per_minute: usize) -> (r:
    bool)
    ensures
        r == (max_requests_per_minute != 0 && known(counts_of(counts@), ip@) && requests_of(
            counts_of(counts@),
            ip@,
        ) > max_requests_per_minute),
{
    match find(counts, ip) {
        Some(i) => max_requests_per_minute != 0 && counts[i].count > max_requests_per_minute,
        None => false,
    }
}

/// Starts a new window: every count is forgotten.
pub fn count_reset(counts: &mut Vec<IpCount>)
    ensures
        final(counts)@ == Seq::<IpCount>::empty(),
{
    counts.clear();
}

/// Picks, at random, the place of an upstream server in the list of those
/// that are alive; `None` if none is.
pub fn pick_upstream(active: &Vec<String>) -> (r: Option<usize>)
    ensures
        r is None <==> active@.len() == 0,
        r matches Some(i) ==> i < active@.len(),
{
    if active.len() == 0 {
        None
    } else {
        Some(random_below(active.len()))
    }
}

/// Strikes the server at place `idx`, which could not be connected to, from
/// the list of those alive: the last one takes its place. Tells whether any
/// server is left to try.
pub fn drop_upstream(active: &mut Vec<String>, idx: usize) -> (r: bool)
    requires
        idx < old(active)@.len(),
    ensures
        final(active)@ == old(active)@.update(idx as int, old(active)@.last()).drop_last(),
        r == (final(active)@.len() > 0),
{
    let _ = active.swap_remove(idx);
    active.len() > 0
}

/// Records the outcome of probing one upstream server during a health check
/// and tells whether the probing goes on. `status` is the status of the
/// server's answer, `None` if it gave none. A server that answers with
/// [`OK`] joins the list of those alive; any other outcome ends the probing
/// and leaves the list as it is.
pub fn record_probe(active: &mut Vec<String>, upstream: &str, status: Option<u16>) -> (r: bool)
    ensures
        r == (status == Some(OK)),
        r ==> final(active)@.len() == old(active)@.len() + 1 && final(active)@.last()@
            == upstream@ && final(active)@.drop_last() == old(active)@,
        !r ==> final(active)@ == old(active)@,
{
    match status {
        Some(code) => {
            if code == OK {
                active.push(upstream.to_owned());
                assert(active@.drop_last() =~= old(active)@);
                true
            } else {
                false
            }
        },
        None => false,
    }
}

/// Why a request of a client could not be read.
#[derive(Clone, Copy, Debug, PartialEq, Eq, Structural)]
pub enum RequestFailure {
    /// The client stopped sending after this many bytes of a request.
    IncompleteRequest(usize),
    /// The request is not valid HTTP.
    MalformedRequest,
    /// The content length is not a number.
    InvalidContentLength,
    /// The body is not as long as the content length says.
    ContentLengthMismatch,
    /// The body is larger than the balancer accepts.
    RequestBodyTooLarge,
    /// Reading from the client failed.
    ConnectionError,
}

/// What to do with a connection after something went wrong.
#[derive(Clone, Copy, Debug, PartialEq, Eq, Structural)]
pub enum Verdict {
    /// Close the connection without an answer.
    Close,
    /// Answer with this status and go on reading requests.
    AnswerAndGoOn(u16),
    /// Answer with this status and close the connection.
    AnswerAndClose(u16),
}

/// The status that answers a request that could not be read.
pub open spec fn status_for(failure: RequestFailure) -> u16 {
    match failure {
        RequestFailure::IncompleteRequest(_) => BAD_REQUEST,
        RequestFailure::MalformedRequest => BAD_REQUEST,
        RequestFailure::InvalidContentLength => BAD_REQUEST,
        RequestFailure::ContentLengthMismatch => BAD_REQUEST,
        RequestFailure::RequestBodyTooLarge => PAYLOAD_TOO_LARGE,
        RequestFailure::ConnectionError => SERVICE_UNAVAILABLE,
    }
}

/// The verdict on a request that could not be read: a client that sent
/// nothing more has finished and a broken connection cannot be answered, so
/// both are closed silently; every other failure is answered with its status
/// and the connection goes on.
pub open spec fn verdict_on(failure: RequestFailure) -> Verdict {
    match failure {
        RequestFailure::IncompleteRequest(received) => if received == 0 {
            Verdict::Close
        } else {
            Verdict::AnswerAndGoOn(status_for(failure))
        },
        RequestFailure::ConnectionError => Verdict::Close,
        _ => Verdict::AnswerAndGoOn(status_for(failure)),
    }
}

/// Finds the status that answers a request that could not be read.
pub fn status_of_failure(failure: RequestFailure) -> (r: u16)
    ensures
        r == status_for(failure),
{
    match failure {
        RequestFailure::IncompleteRequest(_) => BAD_REQUEST,
        RequestFailure::MalformedRequest => BAD_REQUEST,
        RequestFailure::InvalidContentLength => BAD_REQUEST,
        RequestFailure::ContentLengthMismatch => BAD_REQUEST,
        RequestFailure::RequestBodyTooLarge => PAYLOAD_TOO_LARGE,
        RequestFailure::ConnectionError => SERVICE_UNAVAILABLE,
    }
}

/// Decides what to do after a request could not be read.
pub fn judge_request_failure(failure: RequestFailure) -> (r: Verdict)
    ensures
        r == verdict_on(failure),
{
    match failure {
        RequestFailure::IncompleteRequest(0) => Verdict::Close,
        RequestFailure::ConnectionError => Verdict::Close,
        other => Verdict::AnswerAndGoOn(status_of_failure(other)),
    }
}

/// Counts a request of the client `ip` that has been read and decides
/// whether it is forwarded: `None` if it is, or the verdict that turns the
/// client away because it is over the limit.
pub fn admit_request(ip: &str, counts: &mut Vec<IpCount>, max_requests_per_minute: usize) -> (r:
    Option<Verdict>)
    requires
        requests_of(counts_of(old(counts)@), ip@) < usize::MAX,
    ensures
        max_requests_per_minute == 0 ==> r is None && final(counts)@ == old(counts)@,
        max_requests_per_minute != 0 ==> {
            &&& requests_of(counts_of(final(counts)@), ip@) == requests_of(
                counts_of(old(counts)@),
                ip@,
            ) + 1
            &&& r == if requests_of(counts_of(old(counts)@), ip@) + 1 > max_requests_per_minute {
                Some(Verdict::AnswerAndClose(TOO_MANY_REQUESTS))
            } else {
                None::<Verdict>
            }
        },
{
    update_ip_info(ip, counts, max_requests_per_minute);
    if check_ip_rate_limit(ip, counts, max_requests_per_minute) {
        Some(Verdict::AnswerAndClose(TOO_MANY_REQUESTS))
    } else {
        proof {
            if max_requests_per_minute != 0 {
                assert(requests_of(counts_of(counts@), ip@) >= 1);
                if !known(counts_of(counts@), ip@) {
                    assert(requests_of(counts_of(counts@), ip@) == 0);
                }
            }
        }
        None
    }
}

} // verus!
