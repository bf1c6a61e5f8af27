//! The shared progress value and the per-client message channel that reads
//! and writes it.
//!
//! A client sends a text message; if the whole message is a decimal integer
//! it becomes the new stored value, otherwise the store is left alone; either
//! way the reply is the decimal rendering of the value the store now holds.
//! The store itself is guarded by a reader-writer lock, so a concurrent
//! reader observes a value some writer stored, never a torn one.

use vstd::prelude::*;
use vstd::rwlock::{RwLock, RwLockPredicate};

verus! {

/// An ASCII decimal digit.
pub open spec fn is_ascii_digit(b: u8) -> bool {
    48 <= b <= 57
}

/// Every byte of `s` is an ASCII decimal digit.
pub open spec fn all_digits(s: Seq<u8>) -> bool {
    forall|i: int| 0 <= i < s.len() ==> is_ascii_digit(#[trigger] s[i])
}

/// The integer a string of decimal digits denotes.
pub open spec fn digits_val(s: Seq<u8>) -> int
    decreases s.len(),
{
    if s.len() == 0 {
        0
    } else {
        digits_val(s.drop_last()) * 10 + (s.last() - 48)
    }
}

/// What an inbound progress message denotes: the value of an optional ASCII
/// sign followed by at least one decimal digit, provided it fits in `i32`;
/// anything else denotes nothing.
pub open spec fn spec_parse_i32(s: Seq<u8>) -> Option<i32> {
    let neg = s.len() > 0 && s[0] == 45;
    let body = if s.len() > 0 && (s[0] == 43 || s[0] == 45) {
        s.subrange(1, s.len() as int)
    } else {
        s
    };
    if body.len() > 0 && all_digits(body) {
        let v = if neg {
            -digits_val(body)
        } else {
            digits_val(body)
        };
        if i32::MIN <= v <= i32::MAX {
            Some(v as i32)
        } else {
            None
        }
    } else {
        None
    }
}

/// The decimal digits of `n`, most significant first.
pub open spec fn dec_digits(n: nat) -> Seq<u8>
    decreases n,
{
    if n < 10 {
        seq![(48 + n) as u8]
    } else {
        dec_digits(n / 10).push((48 + n % 10) as u8)
    }
}

/// The decimal rendering of `v`: a minus sign for a negative value, then its
/// digits with no leading zero.
pub open spec fn spec_decimal_i32(v: i32) -> Seq<u8> {
    if v < 0 {
        seq![45u8] + dec_digits((-v) as nat)
    } else {
        dec_digits(v as nat)
    }
}

/// What one inbound message leaves in the store: the parsed value if the
/// message parses, the current value otherwise.
pub open spec fn spec_next_progress(current: i32, msg: Seq<u8>) -> i32 {
    match spec_parse_i32(msg) {
        Some(n) => n,
        None => current,
    }
}

/// A digit string denotes a nonnegative value.
pub proof fn lemma_digits_val_nonneg(s: Seq<u8>)
    requires
        all_digits(s),
    ensures
        digits_val(s) >= 0,
    decreases s.len(),
{
    if s.len() > 0 {
        assert(all_digits(s.drop_last())) by {
            assert(forall|i: int|
                0 <= i < s.len() - 1 ==> #[trigger] s.drop_last()[i] == s[i]);
        }
        lemma_digits_val_nonneg(s.drop_last());
    }
}

/// Extending a digit string with more digits never shrinks its value.
pub proof fn lemma_digits_val_prefix_le(s: Seq<u8>, k: int)
    requires
        all_digits(s),
        0 <= k <= s.len(),
    ensures
        digits_val(s.subrange(0, k)) <= digits_val(s),
    decreases s.len() - k,
{
    if k == s.len() {
        assert(s.subrange(0, k) =~= s);
    } else {
        lemma_digits_val_prefix_le(s, k + 1);
        let p = s.subrange(0, k);
        let ext = s.subrange(0, k + 1);
        assert(ext.drop_last() =~= p);
        assert(ext.last() == s[k]);
        assert(all_digits(p)) by {
            assert(forall|i: int| 0 <= i < k ==> #[trigger] p[i] == s[i]);
        }
        lemma_digits_val_nonneg(p);
        assert(digits_val(ext) == digits_val(p) * 10 + (s[k] - 48));
        assert(digits_val(p) <= digits_val(p) * 10) by {
            assert(digits_val(p) >= 0);
        }
    }
}

/// The decimal rendering of a nonnegative integer is a nonempty digit
/// string that denotes the integer itself.
pub proof fn lemma_dec_digits_props(n: nat)
    ensures
        dec_digits(n).len() > 0,
        all_digits(dec_digits(n)),
        digits_val(dec_digits(n)) == n,
    decreases n,
{
    if n < 10 {
        let s = seq![(48 + n) as u8];
        assert(s.drop_last() =~= Seq::<u8>::empty());
        assert(digits_val(Seq::<u8>::empty()) == 0);
        assert(digits_val(s) == s.last() - 48);
    } else {
        lemma_dec_digits_props(n / 10);
        let p = dec_digits(n / 10);
        let s = p.push((48 + n % 10) as u8);
        assert(s.drop_last() =~= p);
        assert(all_digits(s)) by {
            assert(forall|i: int| 0 <= i < p.len() ==> #[trigger] s[i] == p[i]);
            assert(is_ascii_digit(s[s.len() - 1]));
        }
        assert(digits_val(s) == digits_val(p) * 10 + (s.last() - 48));
        assert(n == (n / 10) * 10 + n % 10) by {
            vstd::arithmetic::div_mod::lemma_fundamental_div_mod(n as int, 10);
        }
    }
}

/// Sending the decimal text of any value `v` on the channel stores `v` and
/// the reply renders exactly `v` back: parsing is a left inverse of
/// rendering, whatever was stored before.
pub proof fn lemma_progress_round_trip(current: i32, v: i32)
    ensures
        spec_parse_i32(spec_decimal_i32(v)) == Some(v),
        spec_next_progress(current, spec_decimal_i32(v)) == v,
{
    if v >= 0 {
        let s = dec_digits(v as nat);
        lemma_dec_digits_props(v as nat);
        assert(is_ascii_digit(s[0]));
    } else {
        let m = (-v) as nat;
        let s = seq![45u8] + dec_digits(m);
        lemma_dec_digits_props(m);
        assert(s[0] == 45);
        assert(s.subrange(1, s.len() as int) =~= dec_digits(m));
    }
}

/// A message that does not parse as an integer leaves the stored value as
/// it was.
pub proof fn lemma_ignored_message_keeps_value(current: i32, msg: Seq<u8>)
    requires
        spec_parse_i32(msg) is None,
    ensures
        spec_next_progress(current, msg) == current,
{
}

/// Parse an inbound progress message: an optional ASCII sign followed by
/// decimal digits, accepted exactly when the whole message is such a number
/// and its value fits in `i32`.
pub fn parse_progress(msg: &[u8]) -> (r: Option<i32>)
    ensures
        r == spec_parse_i32(msg@),
{
    let n = msg.len();
    let mut start: usize = 0;
    let mut neg = false;
    if n > 0 && (msg[0] == 43 || msg[0] == 45) {
        start = 1;
        neg = msg[0] == 45;
    }
    if start >= n {
        return None;
    }
    let ghost body = if msg@.len() > 0 && (msg@[0] == 43 || msg@[0] == 45) {
        msg@.subrange(1, msg@.len() as int)
    } else {
        msg@
    };
    proof {
        assert(body =~= msg@.subrange(start as int, n as int));
    }
    let mut acc: u64 = 0;
    let mut i: usize = start;
    while i < n
        invariant
            start <= i <= n,
            start < n,
            start <= 1,
            n == msg@.len(),
            start == 1 <==> msg@.len() > 0 && (msg@[0] == 43 || msg@[0] == 45),
            neg <==> msg@.len() > 0 && msg@[0] == 45,
            body == (if msg@.len() > 0 && (msg@[0] == 43 || msg@[0] == 45) {
                msg@.subrange(1, msg@.len() as int)
            } else {
                msg@
            }),
            body == msg@.subrange(start as int, n as int),
            all_digits(body.subrange(0, i - start)),
            acc == digits_val(body.subrange(0, i - start)),
            acc <= 0x8000_0000,
        decreases n - i,
    {
        let b = msg[i];
        let ghost pre = body.subrange(0, i - start);
        proof {
            assert(body.subrange(0, i + 1 - start) =~= pre.push(msg@[i as int]));
            assert(body.subrange(0, i + 1 - start).drop_last() =~= pre);
            assert(body[i - start] == msg@[i as int]);
        }
        if b < 48 || b > 57 {
            proof {
                assert(!is_ascii_digit(body[i - start]));
                assert(!all_digits(body));
            }
            return None;
        }
        acc = acc * 10 + ((b - 48) as u64);
        if acc > 0x8000_0000 {
            proof {
                assert(acc == digits_val(body.subrange(0, i + 1 - start)));
                if all_digits(body) {
                    lemma_digits_val_prefix_le(body, i + 1 - start);
                    lemma_digits_val_nonneg(body);
                    assert(digits_val(body) > 0x8000_0000);
                }
            }
            return None;
        }
        i = i + 1;
    }
    proof {
        assert(body.subrange(0, n - start) =~= body);
    }
    if neg {
        if acc == 0x8000_0000 {
            Some(i32::MIN)
        } else {
            Some(-(acc as i32))
        }
    } else {
        if acc > 0x7FFF_FFFF {
            None
        } else {
            Some(acc as i32)
        }
    }
}

/// Render `v` as decimal ASCII text, the exact reply sent back on the
/// progress channel.
pub fn format_progress(v: i32) -> (r: Vec<u8>)
    ensures
        r@ == spec_decimal_i32(v),
{
    let neg = v < 0;
    let mut m: u64 = if neg {
        (-(v as i64)) as u64
    } else {
        v as u64
    };
    let ghost m0 = m as nat;
    let mut out: Vec<u8> = Vec::new();
    if m == 0 {
        out.push(48);
        proof {
            assert(out@ =~= dec_digits(0));
        }
    }
    while m > 0
        invariant
            m <= m0,
            m > 0 ==> dec_digits(m0) == dec_digits(m as nat) + out@,
            m == 0 ==> out@ == dec_digits(m0),
        decreases m,
    {
        let d: u8 = 48 + ((m % 10) as u8);
        let ghost out_pre = out@;
        out.insert(0, d);
        proof {
            assert(out@ =~= seq![d] + out_pre);
        }
        let m_pre = m;
        m = m / 10;
        proof {
            if m_pre < 10 {
                assert(dec_digits(m_pre as nat) =~= seq![d]);
                assert(dec_digits(m0) =~= seq![d] + out_pre);
            } else {
                assert(dec_digits(m_pre as nat) == dec_digits((m_pre as nat) / 10).push(d));
                assert((m_pre as nat) / 10 == m as nat);
                assert(dec_digits(m_pre as nat) + out_pre =~= dec_digits(m as nat) + (seq![d]
                    + out_pre));
            }
        }
    }
    if neg {
        let ghost out_pre = out@;
        out.insert(0, 45);
        proof {
            assert(out@ =~= seq![45u8] + out_pre);
        }
    }
    out
}

/// One receive-update-reply round of a progress session, as a pure step:
/// from the currently stored value and the inbound message to the value the
/// store holds next and the exact reply text.
pub fn session_step(current: i32, msg: &[u8]) -> (r: (i32, Vec<u8>))
    ensures
        r.0 == spec_next_progress(current, msg@),
        r.1@ == spec_decimal_i32(r.0),
{
    let next = match parse_progress(msg) {
        Some(n) => n,
        None => current,
    };
    let reply = format_progress(next);
    (next, reply)
}

/// The lock predicate of the progress store: any integer is a valid stored
/// value.
pub struct AnyProgress;

impl RwLockPredicate<i32> for AnyProgress {
    open spec fn inv(self, v: i32) -> bool {
        true
    }
}

/// The process-wide progress value, guarded by a reader-writer lock: reads
/// and writes are atomic, so no reader ever observes a torn value.
pub struct ProgressStore {
    cell: RwLock<i32, AnyProgress>,
}

impl ProgressStore {
    /// A fresh store, holding `initial`.
    pub fn new(initial: i32) -> ProgressStore {
        ProgressStore { cell: RwLock::new(initial, Ghost(AnyProgress)) }
    }

    /// Read the stored value under the lock: the result is a value some
    /// completed write stored.
    pub fn get(&self) -> i32 {
        let handle = self.cell.acquire_read();
        let v = *handle.borrow();
        handle.release_read();
        v
    }

    /// Replace the stored value under the lock, atomically.
    pub fn set(&self, v: i32) {
        let (_, handle) = self.cell.acquire_write();
        handle.release_write(v);
    }

    /// Serve one inbound message: holding the write lock across the whole
    /// round, parse it, store its value if it parses, and reply with the
    /// decimal text of whatever the store holds afterwards.
    pub fn handle_message(&self, msg: &[u8]) -> (reply: Vec<u8>)
        ensures
            spec_parse_i32(msg@) matches Some(n) ==> reply@ == spec_decimal_i32(n),
            exists|prior: i32| reply@ == spec_decimal_i32(spec_next_progress(prior, msg@)),
    {
        let (cur, handle) = self.cell.acquire_write();
        let (next, reply) = session_step(cur, msg);
        handle.release_write(next);
        proof {
            assert(reply@ == spec_decimal_i32(spec_next_progress(cur, msg@)));
        }
        reply
    }
}

/// What can happen to an open progress session: an inbound text message
/// arrives, the peer disconnects, or sending the reply failed.
pub enum SessionEvent {
    Inbound(Vec<u8>),
    Disconnected,
    SendFailed,
}

/// What the session asks its connection to do next: send a reply text, or
/// release the connection and stop.
pub enum SessionAction {
    Reply(Vec<u8>),
    Close,
}

/// One progress-channel session: the per-connection state machine. On each
/// inbound message it updates the shared store through
/// [`ProgressStore::handle_message`] and replies with the stored value; it
/// closes for good on disconnect or on a failed send, and never reopens.
pub struct ChannelSession {
    open: bool,
}

impl ChannelSession {
    /// Whether the session still serves its connection.
    pub closed spec fn is_open(&self) -> bool {
        self.open
    }

    /// A session for a freshly accepted connection.
    pub fn new() -> (s: ChannelSession)
        ensures
            s.is_open(),
    {
        ChannelSession { open: true }
    }

    /// React to one connection event. An inbound message leaves the session
    /// open and yields the reply that [`ProgressStore::handle_message`]
    /// promises; a disconnect or a failed send closes the session.
    pub fn on_event(&mut self, store: &ProgressStore, ev: SessionEvent) -> (act: SessionAction)
        requires
            old(self).is_open(),
        ensures
            ev matches SessionEvent::Inbound(msg) ==> final(self).is_open() && (act matches
                SessionAction::Reply(r) && (spec_parse_i32(msg@) matches Some(n) ==> r@
                == spec_decimal_i32(n)) && (exists|prior: i32|
                r@ == spec_decimal_i32(spec_next_progress(prior, msg@)))),
            !(ev is Inbound) ==> !final(self).is_open() && act is Close,
    {
        match ev {
            SessionEvent::Inbound(msg) => {
                let reply = store.handle_message(msg.as_slice());
                SessionAction::Reply(reply)
            },
            SessionEvent::Disconnected => {
                self.open = false;
                SessionAction::Close
            },
            SessionEvent::SendFailed => {
                self.open = false;
                SessionAction::Close
            },
        }
    }
}

} // verus!
