use crate::codec::CodecHeader;
use crate::errors::Error;
use crate::filter::{lemma_median_in_window, spec_median, LatencyFilter};
use crate::proto::{spec_encode_base, spec_encode_time, Base, MessageType, ServerMessage, Time,
    WireChunk};
use crate::settings::ServerSettings;
use crate::timeval::{fits, is_normalized, norm_of, total_usec, TimeVal};
use vstd::prelude::*;

verus! {

/// The client's identity, presented to the server in the hello.
pub struct Client {
    pub mac: Vec<u8>,
    pub hostname: Vec<u8>,
}

impl Client {
    pub fn new(mac: Vec<u8>, hostname: Vec<u8>) -> (r: Client)
        ensures
            r.mac@ == mac@,
            r.hostname@ == hostname@,
    {
        Client { mac, hostname }
    }
}

/// What one handled frame yields for the caller.
#[derive(Debug)]
pub enum Message {
    Nothing,
    WireChunk(WireChunk, TimeVal),
    ServerSettings(ServerSettings),
    CodecHeader(CodecHeader),
}

/// Totals a normalized `TimeVal` can carry, for clamping sample arithmetic.
pub open spec fn clamp_fit(x: int) -> int {
    if x < -2147483648 * 1_000_000 {
        -2147483648 * 1_000_000
    } else if x > 2147483647int * 1_000_000 + 999_999 {
        2147483647int * 1_000_000 + 999_999
    } else {
        x
    }
}

/// The offset sample a Time echo yields: the mean of the two one-way
/// estimates plus the server's own base offset, clamped to the
/// representable range.
pub open spec fn spec_time_sample(last_sent: int, b: Base, recv_ts: TimeVal, t: Time) -> int {
    clamp_fit(
        ((total_usec(b.received_tv) - last_sent) + (total_usec(recv_ts) - total_usec(b.sent_tv)))
            / 2 + total_usec(t.latency),
    )
}

/// The window evolution one pushed sample causes.
pub open spec fn spec_window_push(w: Seq<i64>, v: i64) -> Seq<i64> {
    if w.len() < 10 {
        w.push(v)
    } else {
        w.drop_first().push(v)
    }
}

/// Protocol state between frames: the offset window, probe bookkeeping and
/// the last settings received.
pub struct Session {
    filter: LatencyFilter,
    pkt_id: u16,
    server_buffer: TimeVal,
    local_latency: TimeVal,
    last_sent_time: TimeVal,
}

impl Session {
    /// The offset samples currently in the window, oldest first.
    pub closed spec fn samples(&self) -> Seq<i64> {
        self.filter@
    }

    /// The current offset estimate in microseconds.
    pub closed spec fn offset_usec(&self) -> int {
        if self.samples().len() > 0 {
            spec_median(self.samples()) as int
        } else {
            1000
        }
    }

    pub closed spec fn server_buffer_total(&self) -> int {
        total_usec(self.server_buffer)
    }

    pub closed spec fn local_latency_total(&self) -> int {
        total_usec(self.local_latency)
    }

    pub closed spec fn last_sent_total(&self) -> int {
        total_usec(self.last_sent_time)
    }

    pub closed spec fn pkt_id_spec(&self) -> u16 {
        self.pkt_id
    }

    pub closed spec fn inv(&self) -> bool {
        &&& self.filter.inv()
        &&& is_normalized(self.server_buffer)
        &&& is_normalized(self.local_latency)
        &&& is_normalized(self.last_sent_time)
        &&& forall|k: int|
            0 <= k < self.samples().len() ==> fits((#[trigger] self.samples()[k]) as int)
    }

    /// A fresh session: no samples, a near-second provisional server buffer,
    /// no local latency, packet ids from zero.
    pub fn new() -> (r: Session)
        ensures
            r.inv(),
            r.samples() == Seq::<i64>::empty(),
            r.pkt_id_spec() == 0,
            r.server_buffer_total() == 999_999,
            r.local_latency_total() == 0,
            r.last_sent_total() == 0,
    {
        Session {
            filter: LatencyFilter::new(),
            pkt_id: 0,
            server_buffer: TimeVal { sec: 0, usec: 999_999 },
            local_latency: TimeVal { sec: 0, usec: 0 },
            last_sent_time: TimeVal { sec: 0, usec: 0 },
        }
    }

    /// True once the offset window is full.
    pub fn synchronized(&self) -> (r: bool)
        ensures
            r == (self.samples().len() == 10),
    {
        self.filter.synchronized()
    }

    /// The filtered estimate of `server clock − client clock`, to subtract
    /// from server timestamps.
    pub fn latency_to_server(&self) -> (r: TimeVal)
        requires
            self.inv(),
        ensures
            is_normalized(r),
            total_usec(r) == self.offset_usec(),
    {
        proof {
            if self.samples().len() > 0 {
                lemma_median_in_window(self.samples());
                let m = spec_median(self.samples());
                let k = choose|k: int|
                    0 <= k < self.samples().len() && self.samples()[k] == m;
                assert(fits(self.samples()[k] as int));
            }
            crate::timeval::lemma_norm_of(self.offset_usec());
        }
        let off = self.filter.current_usec();
        TimeVal::from_total(off)
    }

    /// Whether a time probe is due: always while the window still fills (at
    /// a millisecond's spacing), once a second after that.
    pub fn probe_due(&self, elapsed_since_last: TimeVal) -> (r: bool)
        requires
            is_normalized(elapsed_since_last),
        ensures
            r == (self.samples().len() == 0 || (self.samples().len() < 10 && total_usec(
                elapsed_since_last,
            ) >= 1000) || total_usec(elapsed_since_last) >= 1_000_000),
    {
        let len = self.filter.len();
        let total: i64 = (elapsed_since_last.sec as i64) * 1_000_000 + (
        elapsed_since_last.usec as i64);
        len == 0 || (len < 10 && total >= 1000) || total >= 1_000_000
    }

    /// Build one Time probe frame stamped `now`, advancing the packet id and
    /// remembering the send time for the echo's round-trip arithmetic.
    pub fn time_probe(&mut self, now: TimeVal) -> (r: Vec<u8>)
        requires
            old(self).inv(),
            is_normalized(now),
        ensures
            final(self).inv(),
            r@ == spec_encode_base(
                Base {
                    mtype: MessageType::Time,
                    id: old(self).pkt_id_spec(),
                    refers_to: 0,
                    sent_tv: now,
                    received_tv: now,
                    size: 8,
                },
            ) + spec_encode_time(Time { latency: now }),
            final(self).pkt_id_spec() == old(self).pkt_id_spec().wrapping_add(1),
            final(self).last_sent_total() == total_usec(now),
            final(self).samples() == old(self).samples(),
            final(self).server_buffer_total() == old(self).server_buffer_total(),
            final(self).local_latency_total() == old(self).local_latency_total(),
            final(self).offset_usec() == old(self).offset_usec(),
    {
        let buf = Time::as_buf(self.pkt_id, now, now, now);
        self.last_sent_time = now;
        self.pkt_id = self.pkt_id.wrapping_add(1);
        proof {
            assert forall|k: int|
                0 <= k < self.samples().len() implies fits(
                (#[trigger] self.samples()[k]) as int,
            ) by {
                assert(self.samples() == old(self).samples());
                assert(fits((old(self).samples()[k]) as int));
            }
        }
        buf
    }

    /// Fold one Time echo into the offset window.
    pub fn handle_time(&mut self, b: &Base, t: Time, recv_ts: TimeVal)
        requires
            old(self).inv(),
        ensures
            final(self).inv(),
            final(self).samples() == spec_window_push(
                old(self).samples(),
                spec_time_sample(old(self).last_sent_total(), *b, recv_ts, t) as i64,
            ),
            final(self).samples().len() > 0,
            final(self).offset_usec() == spec_median(final(self).samples()),
            final(self).server_buffer_total() == old(self).server_buffer_total(),
            final(self).local_latency_total() == old(self).local_latency_total(),
            final(self).last_sent_total() == old(self).last_sent_total(),
            final(self).pkt_id_spec() == old(self).pkt_id_spec(),
    {
        let tr: i64 = (b.received_tv.sec as i64) * 1_000_000 + (b.received_tv.usec as i64);
        let ts: i64 = (b.sent_tv.sec as i64) * 1_000_000 + (b.sent_tv.usec as i64);
        let tl: i64 = (self.last_sent_time.sec as i64) * 1_000_000 + (
        self.last_sent_time.usec as i64);
        let tc: i64 = (recv_ts.sec as i64) * 1_000_000 + (recv_ts.usec as i64);
        let tlat: i64 = (t.latency.sec as i64) * 1_000_000 + (t.latency.usec as i64);
        let sum: i64 = (tr - tl) + (tc - ts);
        let half: i64 = if sum >= 0 {
            ((sum as u64) / 2) as i64
        } else {
            let m: u64 = (-sum) as u64;
            let q: u64 = (m + 1) / 2;
            proof {
                vstd::arithmetic::div_mod::lemma_fundamental_div_mod(m as int, 2);
                vstd::arithmetic::div_mod::lemma_fundamental_div_mod((m + 1) as int, 2);
                vstd::arithmetic::div_mod::lemma_fundamental_div_mod_converse(
                    sum as int,
                    2,
                    -(q as int),
                    (m % 2) as int,
                );
            }
            -(q as i64)
        };
        let raw: i64 = half + tlat;
        let sample: i64 = if raw < -2147483648i64 * 1_000_000 {
            -2147483648i64 * 1_000_000
        } else if raw > 2147483647i64 * 1_000_000 + 999_999 {
            2147483647i64 * 1_000_000 + 999_999
        } else {
            raw
        };
        let ghost oldw = self.samples();
        self.filter.push_sample(sample);
        proof {
            let neww = self.samples();
            let smp = spec_time_sample(total_usec(old(self).last_sent_time), *b, recv_ts, t);
            assert(sample as int == smp);
            assert forall|k: int| 0 <= k < neww.len() implies fits((#[trigger] neww[k]) as int) by {
                if k == neww.len() - 1 {
                    assert(neww[k] == sample);
                } else if oldw.len() < 10 {
                    assert(neww[k] == oldw[k]);
                    assert(fits(oldw[k] as int));
                } else {
                    assert(neww[k] == oldw[k + 1]);
                    assert(fits(oldw[k + 1] as int));
                }
            }
        }
    }

    /// Fold one settings message into the session.
    pub fn handle_server_settings(&mut self, s: &ServerSettings)
        requires
            old(self).inv(),
        ensures
            final(self).inv(),
            final(self).server_buffer_total() == 1000 * ((s.bufferMs as i32) as int),
            final(self).local_latency_total() == 1000 * s.latency,
            final(self).samples() == old(self).samples(),
            final(self).offset_usec() == old(self).offset_usec(),
            final(self).last_sent_total() == old(self).last_sent_total(),
            final(self).pkt_id_spec() == old(self).pkt_id_spec(),
    {
        self.server_buffer = TimeVal::from_millis(#[verifier::truncate] (s.bufferMs as i32));
        self.local_latency = TimeVal::from_millis(s.latency);
        proof {
            crate::timeval::lemma_norm_of(1000 * ((s.bufferMs as i32) as int));
            crate::timeval::lemma_norm_of(1000 * s.latency);
            assert forall|k: int|
                0 <= k < self.samples().len() implies fits(
                (#[trigger] self.samples()[k]) as int,
            ) by {
                assert(self.samples() == old(self).samples());
                assert(fits((old(self).samples()[k]) as int));
            }
        }
    }

    /// The deadline one chunk gets, or nothing when that deadline already
    /// passed or cannot be represented.
    pub open spec fn spec_audible_at(&self, timestamp: TimeVal) -> int {
        total_usec(timestamp) - self.offset_usec() + self.server_buffer_total()
            - self.local_latency_total()
    }

    /// Map a chunk's server timestamp to the local instant it must become
    /// audible; a deadline in the past is dropped.
    pub fn handle_wire_chunk(&self, timestamp: TimeVal, now: TimeVal) -> (r: Option<TimeVal>)
        requires
            self.inv(),
        ensures
            match r {
                Some(aud) => self.spec_audible_at(timestamp) >= total_usec(now) && fits(
                    self.spec_audible_at(timestamp),
                ) && aud == norm_of(self.spec_audible_at(timestamp)),
                None => self.spec_audible_at(timestamp) < total_usec(now) || !fits(
                    self.spec_audible_at(timestamp),
                ),
            },
    {
        proof {
            if self.samples().len() > 0 {
                lemma_median_in_window(self.samples());
                let m = spec_median(self.samples());
                let k = choose|k: int|
                    0 <= k < self.samples().len() && self.samples()[k] == m;
                assert(fits(self.samples()[k] as int));
            }
        }
        let tts: i64 = (timestamp.sec as i64) * 1_000_000 + (timestamp.usec as i64);
        let off: i64 = self.filter.current_usec();
        let sb: i64 = (self.server_buffer.sec as i64) * 1_000_000 + (self.server_buffer.usec as i64);
        let ll: i64 = (self.local_latency.sec as i64) * 1_000_000 + (self.local_latency.usec as i64);
        let aud: i64 = tts - off + sb - ll;
        let nw: i64 = (now.sec as i64) * 1_000_000 + (now.usec as i64);
        if aud < nw {
            return None;
        }
        if aud < -2147483648i64 * 1_000_000 || aud > 2147483647i64 * 1_000_000 + 999_999 {
            return None;
        }
        Some(TimeVal::from_total(aud))
    }

    /// Handle one complete inbound frame: dispatch its payload and update
    /// the session.  This is the protocol's whole per-frame step; reading
    /// the bytes and acting on the returned message stay with the caller.
    pub fn handle_frame(&mut self, b: &Base, payload: &[u8], recv_ts: TimeVal) -> (r: Result<
        Message,
        Error,
    >)
        requires
            old(self).inv(),
        ensures
            final(self).inv(),
            match b.mtype {
                MessageType::Time => match r {
                    Ok(m) => {
                        &&& crate::proto::spec_parse_time(payload@) matches Ok(t)
                        &&& m is Nothing
                        &&& final(self).samples() == spec_window_push(
                            old(self).samples(),
                            spec_time_sample(old(self).last_sent_total(), *b, recv_ts, t) as i64,
                        )
                    },
                    Err(e) => crate::proto::spec_parse_time(payload@) == Err::<Time, Error>(e)
                        && *final(self) == *old(self),
                },
                MessageType::ServerSettings => match r {
                    Ok(m) => {
                        &&& m matches Message::ServerSettings(s)
                        &&& crate::settings::spec_parse_server_settings(payload@) == Ok::<
                            ServerSettings,
                            Error,
                        >(s)
                        &&& final(self).server_buffer_total() == 1000 * ((s.bufferMs as i32) as int)
                        &&& final(self).local_latency_total() == 1000 * s.latency
                        &&& final(self).samples() == old(self).samples()
                    },
                    Err(e) => crate::settings::spec_parse_server_settings(payload@) == Err::<
                        ServerSettings,
                        Error,
                    >(e) && *final(self) == *old(self),
                },
                MessageType::CodecHeader => match r {
                    Ok(m) => {
                        &&& m matches Message::CodecHeader(ch)
                        &&& crate::codec::spec_parse_codec_header(payload@) == Ok::<
                            crate::codec::CodecHeaderView,
                            Error,
                        >(ch@)
                        &&& *final(self) == *old(self)
                    },
                    Err(e) => crate::codec::spec_parse_codec_header(payload@) == Err::<
                        crate::codec::CodecHeaderView,
                        Error,
                    >(e) && *final(self) == *old(self),
                },
                MessageType::WireChunk => match r {
                    Ok(m) => {
                        &&& *final(self) == *old(self)
                        &&& crate::proto::spec_parse_wire_chunk(payload@) matches Ok((ts, pl))
                        &&& (m matches Message::WireChunk(wc, aud) ==> wc.timestamp == ts
                            && wc.payload@ == pl && old(self).spec_audible_at(ts) >= total_usec(
                            recv_ts,
                        ) && aud == norm_of(old(self).spec_audible_at(ts)))
                        &&& (m is Nothing ==> old(self).spec_audible_at(ts) < total_usec(recv_ts)
                            || !fits(old(self).spec_audible_at(ts)))
                        &&& (m is Nothing || m matches Message::WireChunk(_, _))
                    },
                    Err(e) => crate::proto::spec_parse_wire_chunk(payload@) == Err::<
                        (TimeVal, Seq<u8>),
                        Error,
                    >(e) && *final(self) == *old(self),
                },
                _ => r == Err::<Message, Error>(Error::MalformedFrame) && *final(self) == *old(
                    self,
                ),
            },
    {
        match b.decode(payload) {
            Err(e) => Err(e),
            Ok(ServerMessage::Time(t)) => {
                self.handle_time(b, t, recv_ts);
                Ok(Message::Nothing)
            },
            Ok(ServerMessage::ServerSettings(s)) => {
                self.handle_server_settings(&s);
                Ok(Message::ServerSettings(s))
            },
            Ok(ServerMessage::CodecHeader(ch)) => Ok(Message::CodecHeader(ch)),
            Ok(ServerMessage::WireChunk(wc)) => {
                match self.handle_wire_chunk(wc.timestamp, recv_ts) {
                    Some(aud) => Ok(Message::WireChunk(wc, aud)),
                    None => Ok(Message::Nothing),
                }
            },
        }
    }
}

// ---------------------------------------------------------------------------
// Playback scheduling decisions
// ---------------------------------------------------------------------------

/// What the playback worker does with the chunk at the queue's head.
#[derive(Copy, Clone, Debug, PartialEq, Eq, Structural)]
pub enum PlaybackAction {
    DropLate,
    Wait,
    Play,
}

/// The sink latency used for scheduling: at least one millisecond, so that
/// sinks reporting zero still behave under the poll loop.
pub open spec fn clamped_latency(lat_ms: u16) -> int {
    if lat_ms >= 1 {
        lat_ms as int
    } else {
        1
    }
}

/// The scheduling decision for a chunk: drop it once its deadline passed,
/// play it within the sink's own latency of the deadline, wait otherwise.
pub open spec fn spec_playback_step(audible_at: TimeVal, now: TimeVal, lat_ms: u16) -> PlaybackAction {
    let remaining = total_usec(audible_at) - total_usec(now);
    if remaining < 0 {
        PlaybackAction::DropLate
    } else if remaining < 1_000_000 && remaining / 1000 <= clamped_latency(lat_ms) {
        PlaybackAction::Play
    } else {
        PlaybackAction::Wait
    }
}

/// Decide what to do with the queue's head chunk at local time `now`.
/// `Play` is only answered within the sink's (clamped) latency of the
/// deadline: the decision-level wake-up jitter stays under one millisecond
/// plus the sink latency.
pub fn playback_step(audible_at: TimeVal, now: TimeVal, lat_ms: u16) -> (r: PlaybackAction)
    ensures
        r == spec_playback_step(audible_at, now, lat_ms),
        r == PlaybackAction::Play ==> total_usec(audible_at) - total_usec(now) < 1000 * (
        clamped_latency(lat_ms) + 1),
{
    let at: i64 = (audible_at.sec as i64) * 1_000_000 + (audible_at.usec as i64);
    let nw: i64 = (now.sec as i64) * 1_000_000 + (now.usec as i64);
    let remaining = at - nw;
    let lat: i64 = if lat_ms >= 1 {
        lat_ms as i64
    } else {
        1
    };
    if remaining < 0 {
        PlaybackAction::DropLate
    } else if remaining < 1_000_000 && ((remaining as u64) / 1000) as i64 <= lat {
        proof {
            vstd::arithmetic::div_mod::lemma_fundamental_div_mod(remaining as int, 1000);
        }
        PlaybackAction::Play
    } else {
        PlaybackAction::Wait
    }
}

/// Chunks keep their arrival order at the sink: when the worker may play a
/// chunk, an earlier-scheduled chunk is never still waiting, so handling
/// the queue in arrival order plays in deadline order.
pub proof fn lemma_playback_order(aud_a: TimeVal, aud_b: TimeVal, now: TimeVal, lat_ms: u16)
    requires
        total_usec(aud_a) <= total_usec(aud_b),
        spec_playback_step(aud_b, now, lat_ms) == PlaybackAction::Play,
    ensures
        spec_playback_step(aud_a, now, lat_ms) != PlaybackAction::Wait,
{
    let ra = total_usec(aud_a) - total_usec(now);
    let rb = total_usec(aud_b) - total_usec(now);
    if ra >= 0 {
        vstd::arithmetic::div_mod::lemma_div_is_ordered(ra, rb, 1000);
    }
}

} // verus!
