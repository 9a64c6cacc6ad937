//! The canonical byte form of a service's static configuration, as it is
//! kept in the static descriptor: a sequence of 64-bit little-endian words
//! with the service name, length-prefixed, after the schema version.
//!
//! Layout: schema version, name length `n`, `n` name bytes, then eleven
//! words: pattern tag, eight pattern fields (unused ones zero), payload type
//! fingerprint, user header fingerprint.

use crate::pattern::{
    EventStaticConfig, MessagingPattern, PublishSubscribeStaticConfig, RequestResponseStaticConfig,
};
use vstd::prelude::*;

verus! {

/// The version of the byte form.
pub const SCHEMA_VERSION: u64 = 1;

/// The number of words after the name.
pub const TRAILING_WORDS: usize = 11;

/// The eight bytes of `x`, least significant first.
pub open spec fn le_bytes(x: u64) -> Seq<u8> {
    seq![
        (x & 0xff) as u8,
        ((x >> 8u64) & 0xff) as u8,
        ((x >> 16u64) & 0xff) as u8,
        ((x >> 24u64) & 0xff) as u8,
        ((x >> 32u64) & 0xff) as u8,
        ((x >> 40u64) & 0xff) as u8,
        ((x >> 48u64) & 0xff) as u8,
        ((x >> 56u64) & 0xff) as u8,
    ]
}

/// The word whose bytes, least significant first, are `b[0..8]`.
pub open spec fn le_value(b: Seq<u8>) -> u64 {
    (b[0] as u64) | ((b[1] as u64) << 8u64) | ((b[2] as u64) << 16u64) | ((b[3] as u64) << 24u64)
        | ((b[4] as u64) << 32u64) | ((b[5] as u64) << 40u64) | ((b[6] as u64) << 48u64) | ((b[7] as u64)
        << 56u64)
}

/// The bytes of the words `ws`, in order.
pub open spec fn bytes_of_words(ws: Seq<u64>) -> Seq<u8>
    decreases ws.len(),
{
    if ws.len() == 0 {
        Seq::empty()
    } else {
        bytes_of_words(ws.drop_last()) + le_bytes(ws.last())
    }
}

pub open spec fn word_of_bool(b: bool) -> u64 {
    if b {
        1
    } else {
        0
    }
}

/// The static configuration of a service, as the contracts see it.
pub struct ServiceStaticConfigView {
    pub service_name: Seq<u8>,
    pub pattern: MessagingPattern,
    pub payload_type: u64,
    pub user_header_type: u64,
}

/// The static configuration of a service.
#[derive(Debug, Clone, PartialEq, Eq)]
pub struct ServiceStaticConfig {
    pub service_name: Vec<u8>,
    pub pattern: MessagingPattern,
    /// A fingerprint of the payload type.
    pub payload_type: u64,
    /// A fingerprint of the user header type.
    pub user_header_type: u64,
}

impl View for ServiceStaticConfig {
    type V = ServiceStaticConfigView;

    open spec fn view(&self) -> ServiceStaticConfigView {
        ServiceStaticConfigView {
            service_name: self.service_name@,
            pattern: self.pattern,
            payload_type: self.payload_type,
            user_header_type: self.user_header_type,
        }
    }
}

/// The eleven words after the name.
pub open spec fn words_of(c: ServiceStaticConfigView) -> Seq<u64> {
    let fields: Seq<u64> = match c.pattern {
        MessagingPattern::RequestResponse(r) => seq![
            0u64,
            word_of_bool(r.enable_safe_overflow_for_requests),
            word_of_bool(r.enable_safe_overflow_for_responses),
            r.max_active_requests as u64,
            r.max_borrowed_responses as u64,
            r.max_response_buffer_size as u64,
            r.max_servers as u64,
            r.max_clients as u64,
            r.max_nodes as u64,
        ],
        MessagingPattern::PublishSubscribe(p) => seq![
            1u64,
            p.max_subscribers as u64,
            p.max_publishers as u64,
            p.max_nodes as u64,
            p.history_size as u64,
            p.subscriber_max_buffer_size as u64,
            p.subscriber_max_borrowed_samples as u64,
            word_of_bool(p.enable_safe_overflow),
            0u64,
        ],
        MessagingPattern::Event(e) => seq![
            2u64,
            e.max_notifiers as u64,
            e.max_listeners as u64,
            e.max_nodes as u64,
            e.event_id_max_value as u64,
            0u64,
            0u64,
            0u64,
            0u64,
        ],
    };
    fields + seq![c.payload_type, c.user_header_type]
}

/// The byte form of a static configuration.
pub open spec fn encode_spec(c: ServiceStaticConfigView) -> Seq<u8> {
    le_bytes(SCHEMA_VERSION) + le_bytes(c.service_name.len() as u64) + c.service_name + bytes_of_words(words_of(c))
}

pub open spec fn is_bool_word(w: u64) -> bool {
    w == 0 || w == 1
}

pub open spec fn fits_usize(w: u64) -> bool {
    w <= usize::MAX
}

/// The messaging pattern that the pattern words name, if they are canonical.
pub open spec fn pattern_from_words(ws: Seq<u64>) -> Option<MessagingPattern> {
    if ws[0] == 0 {
        if is_bool_word(ws[1]) && is_bool_word(ws[2]) && fits_usize(ws[3]) && fits_usize(ws[4])
            && fits_usize(ws[5]) && fits_usize(ws[6]) && fits_usize(ws[7]) && fits_usize(ws[8]) {
            Some(
                MessagingPattern::RequestResponse(
                    RequestResponseStaticConfig {
                        enable_safe_overflow_for_requests: ws[1] == 1,
                        enable_safe_overflow_for_responses: ws[2] == 1,
                        max_active_requests: ws[3] as usize,
                        max_borrowed_responses: ws[4] as usize,
                        max_response_buffer_size: ws[5] as usize,
                        max_servers: ws[6] as usize,
                        max_clients: ws[7] as usize,
                        max_nodes: ws[8] as usize,
                    },
                ),
            )
        } else {
            None
        }
    } else if ws[0] == 1 {
        if fits_usize(ws[1]) && fits_usize(ws[2]) && fits_usize(ws[3]) && fits_usize(ws[4]) && fits_usize(
            ws[5],
        ) && fits_usize(ws[6]) && is_bool_word(ws[7]) && ws[8] == 0 {
            Some(
                MessagingPattern::PublishSubscribe(
                    PublishSubscribeStaticConfig {
                        max_subscribers: ws[1] as usize,
                        max_publishers: ws[2] as usize,
                        max_nodes: ws[3] as usize,
                        history_size: ws[4] as usize,
                        subscriber_max_buffer_size: ws[5] as usize,
                        subscriber_max_borrowed_samples: ws[6] as usize,
                        enable_safe_overflow: ws[7] == 1,
                    },
                ),
            )
        } else {
            None
        }
    } else if ws[0] == 2 {
        if fits_usize(ws[1]) && fits_usize(ws[2]) && fits_usize(ws[3]) && fits_usize(ws[4]) && ws[5] == 0
            && ws[6] == 0 && ws[7] == 0 && ws[8] == 0 {
            Some(
                MessagingPattern::Event(
                    EventStaticConfig {
                        max_notifiers: ws[1] as usize,
                        max_listeners: ws[2] as usize,
                        max_nodes: ws[3] as usize,
                        event_id_max_value: ws[4] as usize,
                    },
                ),
            )
        } else {
            None
        }
    } else {
        None
    }
}

/// The word at byte `pos` of `b`.
pub open spec fn word_at(b: Seq<u8>, pos: int) -> u64 {
    le_value(b.subrange(pos, pos + 8))
}

/// The static configuration that `b` holds, if it is a canonical byte form
/// of the current schema.
pub open spec fn decode_spec(b: Seq<u8>) -> Option<ServiceStaticConfigView> {
    if b.len() < 16 || word_at(b, 0) != SCHEMA_VERSION {
        None
    } else {
        let n = word_at(b, 8) as int;
        if b.len() != 16 + n + 8 * TRAILING_WORDS {
            None
        } else {
            let ws = Seq::new(TRAILING_WORDS as nat, |i: int| word_at(b, 16 + n + 8 * i));
            match pattern_from_words(ws) {
                Some(p) => Some(
                    ServiceStaticConfigView {
                        service_name: b.subrange(16, 16 + n),
                        pattern: p,
                        payload_type: ws[9],
                        user_header_type: ws[10],
                    },
                ),
                None => None,
            }
        }
    }
}

pub proof fn lemma_le_round_trip(x: u64)
    ensures
        le_value(le_bytes(x)) == x,
        le_bytes(x).len() == 8,
{
    let b = le_bytes(x);
    let b0 = (x & 0xff) as u8;
    let b1 = ((x >> 8u64) & 0xff) as u8;
    let b2 = ((x >> 16u64) & 0xff) as u8;
    let b3 = ((x >> 24u64) & 0xff) as u8;
    let b4 = ((x >> 32u64) & 0xff) as u8;
    let b5 = ((x >> 40u64) & 0xff) as u8;
    let b6 = ((x >> 48u64) & 0xff) as u8;
    let b7 = ((x >> 56u64) & 0xff) as u8;
    assert(b[0] == b0 && b[1] == b1 && b[2] == b2 && b[3] == b3 && b[4] == b4 && b[5] == b5 && b[6] == b6
        && b[7] == b7);
    assert((b0 as u64) | ((b1 as u64) << 8u64) | ((b2 as u64) << 16u64) | ((b3 as u64) << 24u64) | ((b4 as u64)
        << 32u64) | ((b5 as u64) << 40u64) | ((b6 as u64) << 48u64) | ((b7 as u64) << 56u64) == x) by (bit_vector)
        requires
            b0 == (x & 0xff) as u8,
            b1 == ((x >> 8u64) & 0xff) as u8,
            b2 == ((x >> 16u64) & 0xff) as u8,
            b3 == ((x >> 24u64) & 0xff) as u8,
            b4 == ((x >> 32u64) & 0xff) as u8,
            b5 == ((x >> 40u64) & 0xff) as u8,
            b6 == ((x >> 48u64) & 0xff) as u8,
            b7 == ((x >> 56u64) & 0xff) as u8,
    ;
}

proof fn lemma_bytes_of_words(ws: Seq<u64>)
    ensures
        bytes_of_words(ws).len() == 8 * ws.len(),
        forall|i: int| 0 <= i < ws.len() ==> #[trigger] bytes_of_words(ws).subrange(8 * i, 8 * i + 8) == le_bytes(ws[i]),
    decreases ws.len(),
{
    if ws.len() > 0 {
        let init = ws.drop_last();
        lemma_bytes_of_words(init);
        lemma_le_round_trip(ws.last());
        let b = bytes_of_words(ws);
        assert forall|i: int| 0 <= i < ws.len() implies #[trigger] b.subrange(8 * i, 8 * i + 8) == le_bytes(ws[i]) by {
            if i < init.len() {
                assert(b.subrange(8 * i, 8 * i + 8) =~= bytes_of_words(init).subrange(8 * i, 8 * i + 8));
            } else {
                assert(b.subrange(8 * i, 8 * i + 8) =~= le_bytes(ws.last()));
            }
        }
    }
}

/// Decoding the byte form of a static configuration gives it back.
pub proof fn lemma_descriptor_round_trip(c: ServiceStaticConfigView)
    requires
        c.service_name.len() + 16 + 8 * TRAILING_WORDS <= usize::MAX,
    ensures
        decode_spec(encode_spec(c)) == Some(c),
{
    let n = c.service_name.len() as int;
    let ws = words_of(c);
    let b = encode_spec(c);
    lemma_le_round_trip(SCHEMA_VERSION);
    lemma_le_round_trip(c.service_name.len() as u64);
    lemma_bytes_of_words(ws);
    assert(b.subrange(0, 8) =~= le_bytes(SCHEMA_VERSION));
    assert(b.subrange(8, 16) =~= le_bytes(c.service_name.len() as u64));
    assert(b.subrange(16, 16 + n) =~= c.service_name);
    let tail = bytes_of_words(ws);
    let decoded = Seq::new(TRAILING_WORDS as nat, |i: int| word_at(b, 16 + n + 8 * i));
    assert forall|i: int| 0 <= i < TRAILING_WORDS implies decoded[i] == ws[i] by {
        assert(b.subrange(16 + n + 8 * i, 16 + n + 8 * i + 8) =~= tail.subrange(8 * i, 8 * i + 8));
        lemma_le_round_trip(ws[i]);
    }
    assert(decoded =~= ws);
    match c.pattern {
        MessagingPattern::RequestResponse(r) => {
            assert(pattern_from_words(ws) == Some(c.pattern));
        },
        MessagingPattern::PublishSubscribe(p) => {
            assert(pattern_from_words(ws) == Some(c.pattern));
        },
        MessagingPattern::Event(e) => {
            assert(pattern_from_words(ws) == Some(c.pattern));
        },
    }
}

/// Appends the bytes of `x` to `v`.
fn push_word(v: &mut Vec<u8>, x: u64)
    ensures
        final(v)@ == old(v)@ + le_bytes(x),
{
    v.push((x & 0xff) as u8);
    v.push(((x >> 8u64) & 0xff) as u8);
    v.push(((x >> 16u64) & 0xff) as u8);
    v.push(((x >> 24u64) & 0xff) as u8);
    v.push(((x >> 32u64) & 0xff) as u8);
    v.push(((x >> 40u64) & 0xff) as u8);
    v.push(((x >> 48u64) & 0xff) as u8);
    v.push(((x >> 56u64) & 0xff) as u8);
    assert(v@ =~= old(v)@ + le_bytes(x));
}

/// The eight bytes of `x`, least significant first.
pub fn word_bytes(x: u64) -> (r: Vec<u8>)
    ensures
        r@ == le_bytes(x),
{
    let mut r: Vec<u8> = Vec::new();
    push_word(&mut r, x);
    assert(r@ =~= le_bytes(x));
    r
}

/// The word at byte `pos` of `b`.
pub fn read_word_at(b: &[u8], pos: usize) -> (r: u64)
    requires
        pos + 8 <= b@.len(),
    ensures
        r == word_at(b@, pos as int),
{
    read_word(b, pos)
}

/// The word at byte `pos` of `b`.
fn read_word(b: &[u8], pos: usize) -> (r: u64)
    requires
        pos + 8 <= b@.len(),
    ensures
        r == word_at(b@, pos as int),
{
    let ghost s = b@.subrange(pos as int, pos + 8);
    assert(s[0] == b@[pos as int] && s[1] == b@[pos + 1] && s[2] == b@[pos + 2] && s[3] == b@[pos + 3]);
    assert(s[4] == b@[pos + 4] && s[5] == b@[pos + 5] && s[6] == b@[pos + 6] && s[7] == b@[pos + 7]);
    (b[pos] as u64) | ((b[pos + 1] as u64) << 8u64) | ((b[pos + 2] as u64) << 16u64) | ((b[pos + 3] as u64) << 24u64)
        | ((b[pos + 4] as u64) << 32u64) | ((b[pos + 5] as u64) << 40u64) | ((b[pos + 6] as u64) << 48u64) | ((
    b[pos + 7] as u64) << 56u64)
}

fn bool_word(b: bool) -> (r: u64)
    ensures
        r == word_of_bool(b),
{
    if b {
        1
    } else {
        0
    }
}

/// The eleven words after the name.
fn words(c: &ServiceStaticConfig) -> (r: Vec<u64>)
    ensures
        r@ == words_of(c@),
{
    let mut r: Vec<u64> = match c.pattern {
        MessagingPattern::RequestResponse(p) => vec![
            0u64,
            bool_word(p.enable_safe_overflow_for_requests),
            bool_word(p.enable_safe_overflow_for_responses),
            p.max_active_requests as u64,
            p.max_borrowed_responses as u64,
            p.max_response_buffer_size as u64,
            p.max_servers as u64,
            p.max_clients as u64,
            p.max_nodes as u64,
        ],
        MessagingPattern::PublishSubscribe(p) => vec![
            1u64,
            p.max_subscribers as u64,
            p.max_publishers as u64,
            p.max_nodes as u64,
            p.history_size as u64,
            p.subscriber_max_buffer_size as u64,
            p.subscriber_max_borrowed_samples as u64,
            bool_word(p.enable_safe_overflow),
            0u64,
        ],
        MessagingPattern::Event(p) => vec![
            2u64,
            p.max_notifiers as u64,
            p.max_listeners as u64,
            p.max_nodes as u64,
            p.event_id_max_value as u64,
            0u64,
            0u64,
            0u64,
            0u64,
        ],
    };
    r.push(c.payload_type);
    r.push(c.user_header_type);
    assert(r@ =~= words_of(c@));
    r
}

impl ServiceStaticConfig {
    /// The byte form of this configuration.
    pub fn encode(&self) -> (r: Vec<u8>)
        requires
            self.service_name@.len() + 16 + 8 * TRAILING_WORDS <= usize::MAX,
        ensures
            r@ == encode_spec(self@),
    {
        let mut r: Vec<u8> = Vec::new();
        push_word(&mut r, SCHEMA_VERSION);
        push_word(&mut r, self.service_name.len() as u64);
        crate::names::append_bytes(&mut r, self.service_name.as_slice());
        let ghost head = r@;
        let ws = words(self);
        let mut i: usize = 0;
        while i < ws.len()
            invariant
                i <= ws@.len(),
                r@ == head + bytes_of_words(ws@.subrange(0, i as int)),
            decreases ws@.len() - i,
        {
            push_word(&mut r, ws[i]);
            proof {
                assert(ws@.subrange(0, i + 1).drop_last() =~= ws@.subrange(0, i as int));
                assert(r@ =~= head + bytes_of_words(ws@.subrange(0, i + 1)));
            }
            i = i + 1;
        }
        proof {
            assert(ws@.subrange(0, ws@.len() as int) =~= ws@);
            assert(r@ =~= encode_spec(self@));
        }
        r
    }

    /// The configuration that `b` holds, if it is a canonical byte form of
    /// the current schema.
    pub fn decode(b: &[u8]) -> (r: Option<ServiceStaticConfig>)
        ensures
            r is None <==> decode_spec(b@) is None,
            r matches Some(c) ==> decode_spec(b@) == Some(c@),
    {
        if b.len() < 16 || read_word(b, 0) != SCHEMA_VERSION {
            return None;
        }
        let n64 = read_word(b, 8);
        let rest = b.len() - 16;
        if n64 > rest as u64 || rest - (n64 as usize) != 8 * TRAILING_WORDS {
            return None;
        }
        let n = n64 as usize;
        let name = crate::names::sub_bytes(b, 16, 16 + n);
        let mut ws: Vec<u64> = Vec::new();
        let mut i: usize = 0;
        while i < TRAILING_WORDS
            invariant
                i <= TRAILING_WORDS,
                b@.len() == 16 + n + 8 * TRAILING_WORDS,
                b@.len() <= usize::MAX,
                ws@.len() == i,
                forall|j: int| 0 <= j < i ==> ws@[j] == word_at(b@, 16 + n + 8 * j),
            decreases TRAILING_WORDS - i,
        {
            ws.push(read_word(b, 16 + n + 8 * i));
            i = i + 1;
        }
        let ghost expected = Seq::new(TRAILING_WORDS as nat, |j: int| word_at(b@, 16 + n + 8 * j));
        assert(ws@ =~= expected);
        let pattern = match pattern_of_words(&ws) {
            Some(p) => p,
            None => return None,
        };
        Some(ServiceStaticConfig { service_name: name, pattern, payload_type: ws[9], user_header_type: ws[10] })
    }
}

fn pattern_of_words(ws: &Vec<u64>) -> (r: Option<MessagingPattern>)
    requires
        ws@.len() == TRAILING_WORDS,
    ensures
        r == pattern_from_words(ws@),
{
    let max = usize::MAX as u64;
    if ws[0] == 0 {
        if ws[1] <= 1 && ws[2] <= 1 && ws[3] <= max && ws[4] <= max && ws[5] <= max && ws[6] <= max
            && ws[7] <= max && ws[8] <= max {
            return Some(
                MessagingPattern::RequestResponse(
                    RequestResponseStaticConfig {
                        enable_safe_overflow_for_requests: ws[1] == 1,
                        enable_safe_overflow_for_responses: ws[2] == 1,
                        max_active_requests: ws[3] as usize,
                        max_borrowed_responses: ws[4] as usize,
                        max_response_buffer_size: ws[5] as usize,
                        max_servers: ws[6] as usize,
                        max_clients: ws[7] as usize,
                        max_nodes: ws[8] as usize,
                    },
                ),
            );
        }
    } else if ws[0] == 1 {
        if ws[1] <= max && ws[2] <= max && ws[3] <= max && ws[4] <= max && ws[5] <= max && ws[6] <= max
            && ws[7] <= 1 && ws[8] == 0 {
            return Some(
                MessagingPattern::PublishSubscribe(
                    PublishSubscribeStaticConfig {
                        max_subscribers: ws[1] as usize,
                        max_publishers: ws[2] as usize,
                        max_nodes: ws[3] as usize,
                        history_size: ws[4] as usize,
                        subscriber_max_buffer_size: ws[5] as usize,
                        subscriber_max_borrowed_samples: ws[6] as usize,
                        enable_safe_overflow: ws[7] == 1,
                    },
                ),
            );
        }
    } else if ws[0] == 2 {
        if ws[1] <= max && ws[2] <= max && ws[3] <= max && ws[4] <= max && ws[5] == 0 && ws[6] == 0
            && ws[7] == 0 && ws[8] == 0 {
            return Some(
                MessagingPattern::Event(
                    EventStaticConfig {
                        max_notifiers: ws[1] as usize,
                        max_listeners: ws[2] as usize,
                        max_nodes: ws[3] as usize,
                        event_id_max_value: ws[4] as usize,
                    },
                ),
            );
        }
    }
    None
}

} // verus!
