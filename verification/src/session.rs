use vstd::prelude::*;

use crate::bytes::{dec_digits, find_ch, find_sub, find_subseq, lemma_find_ch_bounds, push_all, push_dec};
use crate::error::Error;
use vstd::slice::{slice_subrange, slice_to_vec};
use vstd::string::StringSliceAdditionalSpecFns;

verus! {

/// One lowercase hexadecimal digit.
pub open spec fn hex_char(v: int) -> u8 {
    if v < 10 {
        (0x30 + v) as u8
    } else {
        (0x57 + v) as u8
    }
}

/// One byte of a JSON string body: quotation mark and backslash are
/// escaped, control bytes become `\u00xx`, everything else stands as is.
pub open spec fn esc_byte(b: u8) -> Seq<u8> {
    if b == 0x22 {
        seq![0x5Cu8, 0x22u8]
    } else if b == 0x5C {
        seq![0x5Cu8, 0x5Cu8]
    } else if b < 0x20 {
        seq![0x5Cu8, 0x75u8, 0x30u8, 0x30u8, hex_char(b as int / 16), hex_char(b as int % 16)]
    } else {
        seq![b]
    }
}

/// The JSON escaping of `s` from position `i` on.
pub open spec fn json_escaped_from(s: Seq<u8>, i: int) -> Seq<u8>
    decreases s.len() - i,
    when 0 <= i
{
    if i >= s.len() {
        seq![]
    } else {
        esc_byte(s[i]) + json_escaped_from(s, i + 1)
    }
}

/// A JSON string: the escaped body in quotation marks.
pub open spec fn jstr(s: Seq<u8>) -> Seq<u8> {
    seq![0x22u8] + json_escaped_from(s, 0) + seq![0x22u8]
}

/// Appends the JSON string form of `v`, quotation marks included.
fn push_json_str(out: &mut Vec<u8>, v: &[u8])
    ensures
        final(out)@ == old(out)@ + jstr(v@),
{
    out.push(0x22);
    let mut i: usize = 0;
    while i < v.len()
        invariant
            0 <= i <= v@.len(),
            old(out)@ + seq![0x22u8] + json_escaped_from(v@, 0) == out@ + json_escaped_from(
                v@,
                i as int,
            ),
        decreases v@.len() - i,
    {
        let ghost pre = out@;
        let b = v[i];
        if b == 0x22 {
            out.push(0x5C);
            out.push(0x22);
        } else if b == 0x5C {
            out.push(0x5C);
            out.push(0x5C);
        } else if b < 0x20 {
            out.push(0x5C);
            out.push(0x75);
            out.push(0x30);
            out.push(0x30);
            let hi = b / 16;
            let lo = b % 16;
            out.push(if hi < 10 {
                0x30 + hi
            } else {
                0x57 + hi
            });
            out.push(if lo < 10 {
                0x30 + lo
            } else {
                0x57 + lo
            });
        } else {
            out.push(b);
        }
        proof {
            assert(out@ =~= pre + esc_byte(v@[i as int]));
            assert(pre + esc_byte(v@[i as int]) + json_escaped_from(v@, i + 1) =~= pre + (
            esc_byte(v@[i as int]) + json_escaped_from(v@, i + 1)));
        }
        i = i + 1;
    }
    out.push(0x22);
    assert(out@ =~= old(out)@ + jstr(v@));
}

/// The server-issued delivery session descriptor, as the signed
/// session-creation request needs it. The priority is carried as its
/// already-formatted decimal text.
pub struct DeliverySession {
    pub recipe_id: Vec<u8>,
    pub content_id: Vec<u8>,
    pub video_src_id: Vec<u8>,
    pub audio_src_id: Vec<u8>,
    pub heartbeat_lifetime: u64,
    pub token: Vec<u8>,
    pub signature: Vec<u8>,
    pub player_id: Vec<u8>,
    pub auth_type: Vec<u8>,
    pub content_key_timeout: u64,
    pub service_user_id: Vec<u8>,
    pub transfer_preset: Vec<u8>,
    pub use_well_known_port: bool,
    pub use_ssl: bool,
    pub priority: Vec<u8>,
    pub urls: Vec<Vec<u8>>,
}

/// `"yes"` or `"no"`, as the delivery protocol descriptor spells booleans.
pub open spec fn yes_no(b: bool) -> Seq<u8> {
    if b {
        "\"yes\"".spec_bytes()
    } else {
        "\"no\"".spec_bytes()
    }
}

/// The signed session-creation request body: recipe and content
/// identifiers, the muxed video and audio source-id pair, the unlimited
/// timing constraint, the HTTP/HLS protocol descriptor with the session's
/// transfer preset and the fixed 6000 ms segment duration, the bearer token
/// and signature, the player identifier, the content-key timeout and the
/// priority, under the service's exact key names.
pub open spec fn session_request(s: DeliverySession) -> Seq<u8> {
    "{\"session\":{\"recipe_id\":".spec_bytes() + jstr(s.recipe_id@) + ",\"content_id\":".spec_bytes()
        + jstr(s.content_id@)
        + ",\"content_type\":\"movie\",\"content_src_id_sets\":[{\"content_src_ids\":[{\"src_id_to_mux\":{\"video_src_ids\":[".spec_bytes()
        + jstr(s.video_src_id@) + "],\"audio_src_ids\":[".spec_bytes() + jstr(s.audio_src_id@)
        + "]}}]}],\"timing_constraint\":\"unlimited\",\"keep_method\":{\"heartbeat\":{\"lifetime\":".spec_bytes()
        + dec_digits(s.heartbeat_lifetime as nat)
        + "}},\"protocol\":{\"name\":\"http\",\"parameters\":{\"http_parameters\":{\"parameters\":{\"hls_parameters\":{\"use_well_known_port\":".spec_bytes()
        + yes_no(s.use_well_known_port) + ",\"use_ssl\":".spec_bytes() + yes_no(s.use_ssl)
        + ",\"transfer_preset\":".spec_bytes() + jstr(s.transfer_preset@)
        + ",\"segment_duration\":6000}}}}},\"content_uri\":\"\",\"session_operation_auth\":{\"session_operation_auth_by_signature\":{\"token\":".spec_bytes()
        + jstr(s.token@) + ",\"signature\":".spec_bytes() + jstr(s.signature@)
        + "}},\"content_auth\":{\"auth_type\":".spec_bytes() + jstr(s.auth_type@)
        + ",\"content_key_timeout\":".spec_bytes() + dec_digits(s.content_key_timeout as nat)
        + ",\"service_id\":\"nicovideo\",\"service_user_id\":".spec_bytes() + jstr(
        s.service_user_id@,
    ) + "},\"client_info\":{\"player_id\":".spec_bytes() + jstr(s.player_id@)
        + "},\"priority\":".spec_bytes() + s.priority@ + "}}".spec_bytes()
}

/// Builds the signed session-creation request body.
pub fn build_session_request(s: &DeliverySession) -> (r: Vec<u8>)
    ensures
        r@ == session_request(*s),
{
    let mut out: Vec<u8> = Vec::new();
    push_all(&mut out, "{\"session\":{\"recipe_id\":".as_bytes());
    push_json_str(&mut out, s.recipe_id.as_slice());
    push_all(&mut out, ",\"content_id\":".as_bytes());
    push_json_str(&mut out, s.content_id.as_slice());
    push_all(
        &mut out,
        ",\"content_type\":\"movie\",\"content_src_id_sets\":[{\"content_src_ids\":[{\"src_id_to_mux\":{\"video_src_ids\":[".as_bytes(),
    );
    push_json_str(&mut out, s.video_src_id.as_slice());
    push_all(&mut out, "],\"audio_src_ids\":[".as_bytes());
    push_json_str(&mut out, s.audio_src_id.as_slice());
    push_all(
        &mut out,
        "]}}]}],\"timing_constraint\":\"unlimited\",\"keep_method\":{\"heartbeat\":{\"lifetime\":".as_bytes(),
    );
    push_dec(&mut out, s.heartbeat_lifetime);
    push_all(
        &mut out,
        "}},\"protocol\":{\"name\":\"http\",\"parameters\":{\"http_parameters\":{\"parameters\":{\"hls_parameters\":{\"use_well_known_port\":".as_bytes(),
    );
    if s.use_well_known_port {
        push_all(&mut out, "\"yes\"".as_bytes());
    } else {
        push_all(&mut out, "\"no\"".as_bytes());
    }
    push_all(&mut out, ",\"use_ssl\":".as_bytes());
    if s.use_ssl {
        push_all(&mut out, "\"yes\"".as_bytes());
    } else {
        push_all(&mut out, "\"no\"".as_bytes());
    }
    push_all(&mut out, ",\"transfer_preset\":".as_bytes());
    push_json_str(&mut out, s.transfer_preset.as_slice());
    push_all(
        &mut out,
        ",\"segment_duration\":6000}}}}},\"content_uri\":\"\",\"session_operation_auth\":{\"session_operation_auth_by_signature\":{\"token\":".as_bytes(),
    );
    push_json_str(&mut out, s.token.as_slice());
    push_all(&mut out, ",\"signature\":".as_bytes());
    push_json_str(&mut out, s.signature.as_slice());
    push_all(&mut out, "}},\"content_auth\":{\"auth_type\":".as_bytes());
    push_json_str(&mut out, s.auth_type.as_slice());
    push_all(&mut out, ",\"content_key_timeout\":".as_bytes());
    push_dec(&mut out, s.content_key_timeout);
    push_all(
        &mut out,
        ",\"service_id\":\"nicovideo\",\"service_user_id\":".as_bytes(),
    );
    push_json_str(&mut out, s.service_user_id.as_slice());
    push_all(&mut out, "},\"client_info\":{\"player_id\":".as_bytes());
    push_json_str(&mut out, s.player_id.as_slice());
    push_all(&mut out, "},\"priority\":".as_bytes());
    push_all(&mut out, s.priority.as_slice());
    push_all(&mut out, "}}".as_bytes());
    assert(out@ =~= session_request(*s));
    out
}

/// The request body that reserves one muxed video and audio output pair.
pub open spec fn outputs_request(video: Seq<u8>, audio: Seq<u8>) -> Seq<u8> {
    "{\"outputs\":[[".spec_bytes() + jstr(video) + ",".spec_bytes() + jstr(audio)
        + "]]}".spec_bytes()
}

/// Builds the request body that reserves the chosen video and audio pair.
pub fn build_outputs_request(video: &[u8], audio: &[u8]) -> (r: Vec<u8>)
    ensures
        r@ == outputs_request(video@, audio@),
{
    let mut out: Vec<u8> = Vec::new();
    push_all(&mut out, "{\"outputs\":[[".as_bytes());
    push_json_str(&mut out, video);
    push_all(&mut out, ",".as_bytes());
    push_json_str(&mut out, audio);
    push_all(&mut out, "]]}".as_bytes());
    assert(out@ =~= outputs_request(video@, audio@));
    out
}

/// The key pattern `"name":` that introduces a JSON string field.
pub open spec fn jkey(name: Seq<u8>) -> Seq<u8> {
    seq![0x22u8] + name + seq![0x22u8, 0x3Au8]
}

/// The value of the first string field named `name`: the bytes between the
/// quotation marks that follow the first occurrence of `"name":`, taken
/// verbatim.
pub open spec fn json_str_field(s: Seq<u8>, name: Seq<u8>) -> Option<Seq<u8>> {
    let i = find_sub(s, jkey(name), 0);
    if i < 0 {
        None
    } else {
        let after = i + jkey(name).len();
        if after < s.len() && s[after] == 0x22 {
            let e = find_ch(s, 0x22, after + 1);
            if e < s.len() {
                Some(s.subrange(after + 1, e))
            } else {
                None
            }
        } else {
            None
        }
    }
}

/// Extracts the first string field named `name` from a JSON body.
pub fn json_string_field(s: &[u8], name: &[u8]) -> (r: Option<Vec<u8>>)
    ensures
        match r {
            Some(v) => json_str_field(s@, name@) == Some(v@),
            None => json_str_field(s@, name@) is None,
        },
{
    let mut pat: Vec<u8> = Vec::new();
    pat.push(0x22);
    push_all(&mut pat, name);
    pat.push(0x22);
    pat.push(0x3A);
    assert(pat@ =~= jkey(name@));
    let sl = s.len();
    match find_subseq(s, pat.as_slice(), 0) {
        Some(i) => {
            assert(i + pat@.len() <= sl);
            let after = i + pat.len();
            if after < s.len() && s[after] == 0x22 {
                proof {
                    lemma_find_ch_bounds(s@, 0x22, after + 1);
                }
                match crate::bytes::find_byte(s, 0x22, after + 1) {
                    Some(e) => {
                        let v = slice_subrange(s, after + 1, e);
                        Some(slice_to_vec(v))
                    },
                    None => None,
                }
            } else {
                None
            }
        },
        None => None,
    }
}

/// What a successful session negotiation yields: the master playlist's
/// location and the canonical session identifier the heartbeats address.
pub struct SessionInfo {
    pub content_uri: Vec<u8>,
    pub session_id: Vec<u8>,
}

/// The name of the field that carries the master playlist's location.
pub open spec fn content_uri_key() -> Seq<u8> {
    "content_uri".spec_bytes()
}

/// The name of the field that carries the session identifier.
pub open spec fn id_key() -> Seq<u8> {
    "id".spec_bytes()
}

/// Reads the negotiated session out of the delivery endpoint's answer. An
/// answer that lacks the content location or the session identifier fails
/// the negotiation.
pub fn parse_session_response(body: &[u8]) -> (r: Result<SessionInfo, Error>)
    ensures
        match r {
            Ok(info) => json_str_field(body@, content_uri_key()) == Some(info.content_uri@)
                && json_str_field(body@, id_key()) == Some(info.session_id@),
            Err(e) => e == Error::SessionNegotiation && (json_str_field(
                body@,
                content_uri_key(),
            ) is None || json_str_field(body@, id_key()) is None),
        },
{
    let uri = json_string_field(body, "content_uri".as_bytes());
    let sid = json_string_field(body, "id".as_bytes());
    match (uri, sid) {
        (Some(content_uri), Some(session_id)) => Ok(SessionInfo { content_uri, session_id }),
        _ => Err(Error::SessionNegotiation),
    }
}

/// The first candidate delivery endpoint, where the session-creation
/// request is sent.
pub fn first_endpoint(s: &DeliverySession) -> (r: Result<Vec<u8>, Error>)
    ensures
        match r {
            Ok(u) => s.urls@.len() > 0 && u@ == s.urls@[0]@,
            Err(e) => e == Error::SessionNegotiation && s.urls@.len() == 0,
        },
{
    if s.urls.len() == 0 {
        return Err(Error::SessionNegotiation);
    }
    Ok(slice_to_vec(s.urls[0].as_slice()))
}

/// The address heartbeats are sent to: the endpoint, a slash, the session
/// identifier.
pub fn heartbeat_url(endpoint: &[u8], session_id: &[u8]) -> (r: Vec<u8>)
    ensures
        r@ == endpoint@ + seq![0x2Fu8] + session_id@,
{
    let mut out: Vec<u8> = slice_to_vec(endpoint);
    out.push(0x2F);
    push_all(&mut out, session_id);
    assert(out@ =~= endpoint@ + seq![0x2Fu8] + session_id@);
    out
}

/// How long the keepalive waits between heartbeats, in milliseconds.
pub const HEARTBEAT_INTERVAL_MS: u64 = 30000;

/// Whether the next heartbeat is due.
pub fn heartbeat_due(elapsed_ms: u64) -> (r: bool)
    ensures
        r == (elapsed_ms >= HEARTBEAT_INTERVAL_MS),
{
    elapsed_ms >= HEARTBEAT_INTERVAL_MS
}

/// The cancelable handle of one session's background keepalive. Once
/// stopped it stays stopped: nothing in the library sets it running again,
/// so no further heartbeat is sent after `stop`.
pub struct HeartbeatHandle {
    pub stopped: bool,
}

impl HeartbeatHandle {
    /// A running keepalive, created when negotiation succeeds.
    pub fn new() -> (r: HeartbeatHandle)
        ensures
            !r.stopped,
    {
        HeartbeatHandle { stopped: false }
    }

    /// Whether a due heartbeat is actually sent: only while not stopped.
    pub fn should_send(&self) -> (r: bool)
        ensures
            r == !self.stopped,
    {
        !self.stopped
    }

    /// Cancels the keepalive. Idempotent, and a no-op on a handle whose
    /// negotiation never ran.
    pub fn stop(&mut self)
        ensures
            final(self).stopped,
    {
        self.stopped = true;
    }
}

/// One selectable track of the delivery descriptor, as the access-rights
/// negotiation reads it.
pub struct TrackInfo {
    pub id: Vec<u8>,
    pub is_available: bool,
    pub quality_level: i64,
}

/// Picks the best track: among the available tracks, the one with the
/// highest quality level; of equal levels, the last. `None` when no track
/// is available.
pub fn select_best_track(tracks: &Vec<TrackInfo>) -> (r: Option<usize>)
    ensures
        match r {
            Some(i) => {
                &&& i < tracks@.len()
                &&& tracks@[i as int].is_available
                &&& forall|j: int|
                    0 <= j < tracks@.len() && (#[trigger] tracks@[j]).is_available ==> tracks@[j].quality_level
                        <= tracks@[i as int].quality_level
                &&& forall|j: int|
                    i < j < tracks@.len() && (#[trigger] tracks@[j]).is_available ==> tracks@[j].quality_level
                        < tracks@[i as int].quality_level
            },
            None => forall|j: int|
                0 <= j < tracks@.len() ==> !(#[trigger] tracks@[j]).is_available,
        },
{
    let mut best: Option<usize> = None;
    let mut j: usize = 0;
    while j < tracks.len()
        invariant
            0 <= j <= tracks@.len(),
            match best {
                Some(b) => {
                    &&& b < j
                    &&& tracks@[b as int].is_available
                    &&& forall|k: int|
                        0 <= k < j && (#[trigger] tracks@[k]).is_available ==> tracks@[k].quality_level
                            <= tracks@[b as int].quality_level
                    &&& forall|k: int|
                        b < k < j && (#[trigger] tracks@[k]).is_available ==> tracks@[k].quality_level
                            < tracks@[b as int].quality_level
                },
                None => forall|k: int|
                    0 <= k < j ==> !(#[trigger] tracks@[k]).is_available,
            },
        decreases tracks@.len() - j,
    {
        if tracks[j].is_available {
            match best {
                Some(b) => {
                    if tracks[j].quality_level >= tracks[b].quality_level {
                        best = Some(j);
                    }
                },
                None => {
                    best = Some(j);
                },
            }
        }
        j = j + 1;
    }
    best
}

} // verus!
