//! The engine configuration, read from on-chain settings: the Raft id of a
//! peer, the peers of the network, the timing of heartbeats, elections and
//! block publishing.

use vstd::prelude::*;
use vstd::arithmetic::power2::{pow2, lemma2_to64, lemma_pow2_adds, lemma_pow2_pos};

use crate::types::{decimal, decimal_string, PeerId};

verus! {

/// The settings of the chain, as key/value pairs (keys are distinct where
/// the validator hands them over).
pub type Settings = Vec<(String, String)>;

/// The setting that lists the peers of the network, as a JSON list of hex
/// strings.
pub open spec fn peers_key() -> Seq<char> {
    "sawtooth.consensus.raft.peers"@
}

/// The setting that gives the heartbeat interval in ticks.
pub open spec fn heartbeat_tick_key() -> Seq<char> {
    "sawtooth.consensus.raft.heartbeat_tick"@
}

/// The setting that gives the election timeout in ticks.
pub open spec fn election_tick_key() -> Seq<char> {
    "sawtooth.consensus.raft.election_tick"@
}

/// The setting that gives the block publishing period in milliseconds.
pub open spec fn period_key() -> Seq<char> {
    "sawtooth.consensus.raft.period"@
}

/// The value of the first setting named `key`, if there is one.
pub open spec fn setting(settings: Seq<(String, String)>, key: Seq<char>) -> Option<Seq<char>>
    decreases settings.len(),
{
    if settings.len() == 0 {
        None
    } else if settings[0].0@ == key {
        Some(settings[0].1@)
    } else {
        setting(settings.drop_first(), key)
    }
}

/// The value of the setting named `key`, if there is one.
pub fn get_setting(settings: &Settings, key: &str) -> (r: Option<String>)
    ensures
        match r {
            Some(v) => setting(settings@, key@) == Some(v@),
            None => setting(settings@, key@) is None,
        },
{
    let owned_key = key.to_owned();
    assert(settings@.subrange(0, settings@.len() as int) =~= settings@);
    let mut i: usize = 0;
    while i < settings.len()
        invariant
            i <= settings@.len(),
            owned_key@ == key@,
            setting(settings@, key@) == setting(settings@.subrange(i as int, settings@.len() as int), key@),
        decreases settings.len() - i,
    {
        let ghost rest = settings@.subrange(i as int, settings@.len() as int);
        assert(rest.drop_first() =~= settings@.subrange(i + 1, settings@.len() as int));
        assert(rest[0] == settings@[i as int]);
        if settings[i].0 == owned_key {
            let v = settings[i].1.clone();
            assert(setting(rest, key@) == Some(v@));
            return Some(v);
        }
        i = i + 1;
    }
    assert(settings@.subrange(i as int, settings@.len() as int) =~= Seq::<(String, String)>::empty());
    None
}

/// The Raft ids the last eight bytes of a peer id denote: their value as a
/// big-endian number.
pub open spec fn be_value(t: Seq<u8>) -> nat
    decreases t.len(),
{
    if t.len() == 0 {
        0
    } else {
        be_value(t.drop_last()) * 256 + (t.last() as nat)
    }
}

/// The Raft id of a peer: the big-endian value of the last eight bytes of
/// its id.
pub open spec fn raft_id_of(peer_id: Seq<u8>) -> u64 {
    be_value(peer_id.subrange(peer_id.len() - 8, peer_id.len() as int)) as u64
}

proof fn lemma_be_value_bound(t: Seq<u8>)
    ensures
        be_value(t) < pow2(8 * t.len()),
    decreases t.len(),
{
    lemma2_to64();
    if t.len() > 0 {
        lemma_be_value_bound(t.drop_last());
        let n = (t.len() - 1) as nat;
        lemma_pow2_adds(8 * n, 8);
        assert(8 * n + 8 == 8 * t.len());
        let a = be_value(t.drop_last());
        let p = pow2(8 * n);
        let l = t.last() as nat;
        assert(be_value(t) == a * 256 + l);
        assert(p * 256 == pow2(8 * t.len()));
        assert(a * 256 + l < p * 256) by (nonlinear_arith)
            requires
                a < p,
                l < 256,
        ;
    } else {
        assert(pow2(0) == 1);
    }
}

proof fn lemma_be_value_prepend(x: u8, t: Seq<u8>)
    ensures
        be_value(seq![x] + t) == x * pow2(8 * t.len()) + be_value(t),
    decreases t.len(),
{
    lemma2_to64();
    let s = seq![x] + t;
    if t.len() == 0 {
        assert(s.drop_last() =~= Seq::<u8>::empty());
        assert(s.last() == x);
        assert(be_value(s) == be_value(s.drop_last()) * 256 + (x as nat));
        assert(pow2(0) == 1);
        assert(8 * t.len() == 0);
    } else {
        assert(s.drop_last() =~= seq![x] + t.drop_last());
        assert(s.last() == t.last());
        lemma_be_value_prepend(x, t.drop_last());
        let n = (t.len() - 1) as nat;
        lemma_pow2_adds(8 * n, 8);
        assert(8 * n + 8 == 8 * t.len());
        let p = pow2(8 * n);
        let b = be_value(t.drop_last());
        let l = t.last() as nat;
        assert(be_value(s) == (x * p + b) * 256 + l);
        assert(be_value(t) == b * 256 + l);
        assert(p * 256 == pow2(8 * t.len()));
        assert((x * p + b) * 256 + l == x * (p * 256) + (b * 256 + l)) by (nonlinear_arith);
    }
}

/// Turns a peer id into a Raft id: the big-endian value of its last eight
/// bytes.
pub fn peer_id_to_raft_id(peer_id: &PeerId) -> (r: u64)
    requires
        peer_id@.len() >= 8,
    ensures
        r == raft_id_of(peer_id@),
{
    let bytes = peer_id;
    let n = bytes.len();
    let ghost s = bytes@;
    let mut u: u64 = 0;
    let mut i: usize = 0;
    while i < 8
        invariant
            n == s.len(),
            n >= 8,
            s == bytes@,
            i <= 8,
            u as nat == be_value(s.subrange(n - i, n as int)),
        decreases 8 - i,
    {
        let b = bytes[n - 1 - i];
        proof {
            let t = s.subrange(n - i, n as int);
            assert(s.subrange(n - (i + 1), n as int) =~= seq![b] + t);
            lemma_be_value_prepend(b, t);
            lemma_be_value_bound(seq![b] + t);
            lemma2_to64();
            lemma_pow2_pos(8 * (i as nat));
            assert(pow2(8 * (i + 1) as nat) <= pow2(64)) by {
                if i < 7 {
                    vstd::arithmetic::power2::lemma_pow2_strictly_increases(8 * (i + 1) as nat, 64);
                }
            }
            assert(8 * (i as nat) <= 56);
            assert(pow2(8 * (i as nat)) <= pow2(56)) by {
                if i < 7 {
                    vstd::arithmetic::power2::lemma_pow2_strictly_increases(8 * (i as nat), 56);
                }
            }
            assert(((i * 8) as u64) as nat == 8 * (i as nat));
            lemma_pow2_adds(32, 24);
            assert(pow2(56) == 72057594037927936);
            assert(pow2(((i * 8) as u64) as nat) <= 72057594037927936);
            assert((b as u64) * pow2(((i * 8) as u64) as nat) <= u64::MAX) by (nonlinear_arith)
                requires
                    b < 256,
                    pow2(((i * 8) as u64) as nat) <= 72057594037927936,
            ;
            vstd::bits::lemma_u64_shl_is_mul(b as u64, (i * 8) as u64);
        }
        u = u + ((b as u64) << ((i * 8) as u64));
        i = i + 1;
    }
    u
}

/// The value of a hex digit, where `c` is one.
pub open spec fn hex_digit(c: char) -> Option<u8> {
    if '0' <= c && c <= '9' {
        Some(((c as u32) - ('0' as u32)) as u8)
    } else if 'a' <= c && c <= 'f' {
        Some(((c as u32) - ('a' as u32) + 10) as u8)
    } else if 'A' <= c && c <= 'F' {
        Some(((c as u32) - ('A' as u32) + 10) as u8)
    } else {
        None
    }
}

/// The bytes a hex string denotes: two digits per byte, high digit first,
/// either case; nothing where the length is odd or a character is no digit.
pub open spec fn hex_decoded(s: Seq<char>) -> Option<Seq<u8>> {
    if s.len() % 2 == 0 && forall|i: int| 0 <= i < s.len() ==> #[trigger] hex_digit(s[i]) is Some {
        Some(Seq::new((s.len() / 2) as nat, |i: int| (hex_digit(s[2 * i])->0 * 16 + hex_digit(s[2 * i + 1])->0) as u8))
    } else {
        None
    }
}

/// Decodes a hex string with the `hex` crate.
///
/// `hex::decode` returns the bytes the pairs of digits denote, and fails on
/// an odd length or a character that is no hex digit (either case).
#[verifier::external_body]
fn decode_hex(s: &str) -> (r: Option<Vec<u8>>)
    ensures
        match r {
            Some(v) => hex_decoded(s@) == Some(v@),
            None => hex_decoded(s@) is None,
        },
{
    match hex::decode(s) {
        Ok(v) => Some(v),
        Err(_) => None,
    }
}

/// What `serde_json` makes of a text read as a JSON list of strings.
pub uninterp spec fn json_string_list(text: Seq<char>) -> Option<Seq<Seq<char>>>;

/// The views of a sequence of strings.
pub open spec fn strings_view(v: Seq<String>) -> Seq<Seq<char>> {
    v.map_values(|s: String| s@)
}

/// Parses a JSON list of strings with `serde_json::from_str`.
///
/// The result is what `serde_json` makes of the text, named
/// `json_string_list`; nothing more of JSON is stated here.
#[verifier::external_body]
fn parse_json_string_list(text: &str) -> (r: Option<Vec<String>>)
    ensures
        match r {
            Some(v) => json_string_list(text@) == Some(strings_view(v@)),
            None => json_string_list(text@) is None,
        },
{
    match serde_json::from_str::<Vec<String>>(text) {
        Ok(v) => Some(v),
        Err(_) => None,
    }
}

/// The peer ids a list of hex strings denotes, where every string is valid
/// hex.
pub open spec fn decoded_peers(list: Seq<Seq<char>>) -> Option<Seq<Seq<u8>>> {
    if forall|i: int| 0 <= i < list.len() ==> #[trigger] hex_decoded(list[i]) is Some {
        Some(Seq::new(list.len(), |i: int| hex_decoded(list[i])->0))
    } else {
        None
    }
}

/// The peers the settings list, where the peers setting is present, is a
/// JSON list of strings and each of them is valid hex.
pub open spec fn peers_setting(settings: Seq<(String, String)>) -> Option<Seq<Seq<u8>>> {
    match setting(settings, peers_key()) {
        Some(text) => match json_string_list(text) {
            Some(list) => decoded_peers(list),
            None => None,
        },
        None => None,
    }
}

/// The views of a sequence of peer ids.
pub open spec fn peers_view(v: Seq<PeerId>) -> Seq<Seq<u8>> {
    v.map_values(|p: PeerId| p@)
}

/// Why the peers setting could not be read.
#[derive(PartialEq, Eq, Structural, Clone, Copy, Debug)]
pub enum PeersSettingError {
    /// The peers setting is not set.
    Missing,
    /// The peers setting is not a JSON list of strings.
    InvalidJson,
    /// A peer id is not valid hex.
    InvalidHex,
}

/// Decodes each hex string of a list into a peer id.
pub fn decode_peer_list(list: &Vec<String>) -> (r: Option<Vec<PeerId>>)
    ensures
        match r {
            Some(v) => decoded_peers(strings_view(list@)) == Some(peers_view(v@)),
            None => decoded_peers(strings_view(list@)) is None,
        },
{
    let ghost l = strings_view(list@);
    let mut out: Vec<PeerId> = Vec::new();
    let mut i: usize = 0;
    while i < list.len()
        invariant
            i <= list@.len(),
            l == strings_view(list@),
            out@.len() == i,
            forall|j: int| 0 <= j < i ==> #[trigger] hex_decoded(l[j]) == Some(out@[j]@),
        decreases list.len() - i,
    {
        match decode_hex(list[i].as_str()) {
            Some(bytes) => {
                out.push(bytes);
            },
            None => {
                assert(hex_decoded(l[i as int]) is None);
                return None;
            },
        }
        i = i + 1;
    }
    assert(peers_view(out@) =~= Seq::new(l.len(), |j: int| hex_decoded(l[j])->0));
    Some(out)
}

/// Reads the peers of the network from the settings, each decoded from hex.
pub fn get_peers_from_settings(settings: &Settings) -> (r: Vec<PeerId>)
    requires
        peers_setting(settings@) is Some,
    ensures
        peers_setting(settings@) == Some(peers_view(r@)),
{
    match try_get_peers_from_settings(settings) {
        Ok(peers) => peers,
        Err(_) => {
            assert(false);
            Vec::new()
        },
    }
}

/// Reads the peers of the network from the settings, or says why it cannot.
pub fn try_get_peers_from_settings(settings: &Settings) -> (r: Result<Vec<PeerId>, PeersSettingError>)
    ensures
        match r {
            Ok(peers) => peers_setting(settings@) == Some(peers_view(peers@)),
            Err(PeersSettingError::Missing) => setting(settings@, peers_key()) is None,
            Err(PeersSettingError::InvalidJson) => {
                &&& setting(settings@, peers_key()) matches Some(text)
                &&& json_string_list(text) is None
            },
            Err(PeersSettingError::InvalidHex) => {
                &&& setting(settings@, peers_key()) matches Some(text)
                &&& json_string_list(text) matches Some(list)
                &&& decoded_peers(list) is None
            },
        },
{
    let value = match get_setting(settings, "sawtooth.consensus.raft.peers") {
        Some(v) => v,
        None => {
            return Err(PeersSettingError::Missing);
        },
    };
    let list = match parse_json_string_list(value.as_str()) {
        Some(l) => l,
        None => {
            return Err(PeersSettingError::InvalidJson);
        },
    };
    match decode_peer_list(&list) {
        Some(peers) => Ok(peers),
        None => Err(PeersSettingError::InvalidHex),
    }
}

/// What a decimal digit string denotes.
pub open spec fn digits_value(s: Seq<char>) -> int
    decreases s.len(),
{
    if s.len() == 0 {
        0
    } else {
        digits_value(s.drop_last()) * 10 + ((s.last() as u32) - ('0' as u32))
    }
}

/// The number an unsigned decimal literal denotes: an optional `+`, then one
/// or more ASCII digits.
pub open spec fn unsigned_decimal(s: Seq<char>) -> Option<int> {
    let digits = if s.len() > 0 && s[0] == '+' {
        s.drop_first()
    } else {
        s
    };
    if digits.len() > 0 && forall|i: int| 0 <= i < digits.len() ==> '0' <= #[trigger] digits[i] <= '9' {
        Some(digits_value(digits))
    } else {
        None
    }
}

/// Parses a `u64` with `str::parse`.
///
/// `u64::from_str` accepts an optional `+` followed by ASCII digits whose
/// value fits in a `u64`, and nothing else.
#[verifier::external_body]
fn parse_u64(s: &str) -> (r: Option<u64>)
    ensures
        r == (match unsigned_decimal(s@) {
            Some(v) => if v <= u64::MAX { Some(v as u64) } else { None },
            None => None,
        }),
{
    s.parse::<u64>().ok()
}

/// Parses a `usize` with `str::parse`.
///
/// `usize::from_str` accepts an optional `+` followed by ASCII digits whose
/// value fits in a `usize`, and nothing else.
#[verifier::external_body]
fn parse_usize(s: &str) -> (r: Option<usize>)
    ensures
        r == (match unsigned_decimal(s@) {
            Some(v) => if v <= usize::MAX { Some(v as usize) } else { None },
            None => None,
        }),
{
    s.parse::<usize>().ok()
}

/// The tick count a setting gives, where it is set and parses as a `usize`.
pub open spec fn tick_setting(settings: Seq<(String, String)>, key: Seq<char>) -> Option<usize> {
    match setting(settings, key) {
        Some(text) => match unsigned_decimal(text) {
            Some(v) => if v <= usize::MAX { Some(v as usize) } else { None },
            None => None,
        },
        None => None,
    }
}

/// The period a setting gives, where it is set and parses as a `u64`.
pub open spec fn period_setting(settings: Seq<(String, String)>) -> Option<u64> {
    match setting(settings, period_key()) {
        Some(text) => match unsigned_decimal(text) {
            Some(v) => if v <= u64::MAX { Some(v as u64) } else { None },
            None => None,
        },
        None => None,
    }
}

/// The largest message Raft sends, in bytes (1 GiB).
pub const MAX_SIZE_PER_MSG: u64 = 1073741824;

/// The default block publishing period, in milliseconds.
pub const DEFAULT_PERIOD_MS: u64 = 3000;

/// The part of the Raft configuration the engine sets; every other field
/// keeps Raft's default.
pub struct RaftSettings {
    /// The Raft id of this node.
    pub id: u64,
    /// The Raft ids of the peers.
    pub peers: Vec<u64>,
    /// The heartbeat interval in ticks, where the settings give one.
    pub heartbeat_tick: Option<usize>,
    /// The election timeout in ticks, where the settings give one.
    pub election_tick: Option<usize>,
    /// The largest message size in bytes.
    pub max_size_per_msg: u64,
    /// The tag Raft's log lines carry (empty until the id is set).
    pub tag: String,
}

/// The tag of the node with Raft id `id`: the id in decimal, in square
/// brackets.
pub open spec fn raft_tag(id: u64) -> Seq<char> {
    seq!['['] + decimal(id as nat) + seq![']']
}

/// The tag of the node with Raft id `id`.
pub fn tag_for(id: u64) -> (r: String)
    ensures
        r@ == raft_tag(id),
{
    proof {
        reveal_strlit("[");
        reveal_strlit("]");
    }
    let digits = decimal_string(id);
    let mut r = "[".to_owned();
    r.append(digits.as_str());
    r.append("]");
    r
}

/// The configuration of the engine.
pub struct RaftEngineConfig {
    /// The peers of the network.
    pub peers: Vec<PeerId>,
    /// The block publishing period, in milliseconds.
    pub period_ms: u64,
    /// The Raft configuration.
    pub raft: RaftSettings,
}

impl RaftEngineConfig {
    /// The configuration before the settings are read: no peers, a period
    /// of three seconds, messages of up to 1 GiB, Raft's default ticks.
    pub fn new() -> (r: RaftEngineConfig)
        ensures
            r.peers@.len() == 0,
            r.period_ms == DEFAULT_PERIOD_MS,
            r.raft.id == 0,
            r.raft.peers@.len() == 0,
            r.raft.heartbeat_tick is None,
            r.raft.election_tick is None,
            r.raft.max_size_per_msg == MAX_SIZE_PER_MSG,
            r.raft.tag@ == Seq::<char>::empty(),
    {
        RaftEngineConfig {
            peers: Vec::new(),
            period_ms: DEFAULT_PERIOD_MS,
            raft: RaftSettings {
                id: 0,
                peers: Vec::new(),
                heartbeat_tick: None,
                election_tick: None,
                max_size_per_msg: MAX_SIZE_PER_MSG,
                tag: String::new(),
            },
        }
    }
}

/// Whether every peer id is long enough to carry a Raft id.
pub open spec fn all_long_enough(peers: Seq<Seq<u8>>) -> bool {
    forall|i: int| 0 <= i < peers.len() ==> #[trigger] peers[i].len() >= 8
}

/// The Raft ids of a list of peers.
pub open spec fn raft_ids_of(peers: Seq<Seq<u8>>) -> Seq<u64> {
    peers.map_values(|p: Seq<u8>| raft_id_of(p))
}

/// Turns each peer id into its Raft id.
pub fn raft_ids(peers: &Vec<PeerId>) -> (r: Vec<u64>)
    requires
        all_long_enough(peers_view(peers@)),
    ensures
        r@ == raft_ids_of(peers_view(peers@)),
{
    let mut out: Vec<u64> = Vec::new();
    let mut i: usize = 0;
    while i < peers.len()
        invariant
            i <= peers@.len(),
            all_long_enough(peers_view(peers@)),
            out@ == raft_ids_of(peers_view(peers@)).subrange(0, i as int),
        decreases peers.len() - i,
    {
        assert(peers_view(peers@)[i as int] == peers@[i as int]@);
        let id = peer_id_to_raft_id(&peers[i]);
        out.push(id);
        i = i + 1;
        assert(out@ =~= raft_ids_of(peers_view(peers@)).subrange(0, i as int));
    }
    assert(out@ =~= raft_ids_of(peers_view(peers@)));
    out
}

/// Builds the engine configuration of the node `peer_id` from the chain
/// settings: its Raft id, the ticks and the period where the settings give
/// them, and the peers of the network with their Raft ids.
pub fn load_raft_config(peer_id: &PeerId, settings: &Settings) -> (r: RaftEngineConfig)
    requires
        peer_id@.len() >= 8,
        peers_setting(settings@) is Some,
        all_long_enough(peers_setting(settings@)->0),
    ensures
        r.raft.id == raft_id_of(peer_id@),
        r.raft.heartbeat_tick == tick_setting(settings@, heartbeat_tick_key()),
        r.raft.election_tick == tick_setting(settings@, election_tick_key()),
        r.period_ms == match period_setting(settings@) {
            Some(p) => p,
            None => DEFAULT_PERIOD_MS,
        },
        peers_setting(settings@) == Some(peers_view(r.peers@)),
        r.raft.peers@ == raft_ids_of(peers_view(r.peers@)),
        r.raft.max_size_per_msg == MAX_SIZE_PER_MSG,
        r.raft.tag@ == raft_tag(r.raft.id),
{
    let mut config = RaftEngineConfig::new();
    config.raft.id = peer_id_to_raft_id(peer_id);
    config.raft.tag = tag_for(config.raft.id);

    if let Some(heartbeat_tick) = get_setting(settings, "sawtooth.consensus.raft.heartbeat_tick") {
        if let Some(tick) = parse_usize(heartbeat_tick.as_str()) {
            config.raft.heartbeat_tick = Some(tick);
        }
    }
    if let Some(election_tick) = get_setting(settings, "sawtooth.consensus.raft.election_tick") {
        if let Some(tick) = parse_usize(election_tick.as_str()) {
            config.raft.election_tick = Some(tick);
        }
    }
    if let Some(period) = get_setting(settings, "sawtooth.consensus.raft.period") {
        if let Some(period) = parse_u64(period.as_str()) {
            config.period_ms = period;
        }
    }

    let peers = get_peers_from_settings(settings);
    let ids = raft_ids(&peers);
    config.peers = peers;
    config.raft.peers = ids;
    config
}

/// Why the engine configuration could not be built.
#[derive(PartialEq, Eq, Structural, Clone, Copy, Debug)]
pub enum ConfigError {
    /// The node's own peer id is shorter than eight bytes.
    PeerIdTooShort,
    /// The peers setting could not be read.
    Peers(PeersSettingError),
    /// A peer id in the settings is shorter than eight bytes.
    PeerTooShort,
}

/// Builds the engine configuration as [`load_raft_config`] does, or says why
/// it cannot.
pub fn try_load_raft_config(peer_id: &PeerId, settings: &Settings) -> (r: Result<RaftEngineConfig, ConfigError>)
    ensures
        match r {
            Ok(c) => peer_id@.len() >= 8
                && peers_setting(settings@) == Some(peers_view(c.peers@))
                && all_long_enough(peers_view(c.peers@))
                && c.raft.id == raft_id_of(peer_id@)
                && c.raft.heartbeat_tick == tick_setting(settings@, heartbeat_tick_key())
                && c.raft.election_tick == tick_setting(settings@, election_tick_key())
                && c.period_ms == (match period_setting(settings@) {
                    Some(p) => p,
                    None => DEFAULT_PERIOD_MS,
                })
                && c.raft.peers@ == raft_ids_of(peers_view(c.peers@))
                && c.raft.max_size_per_msg == MAX_SIZE_PER_MSG
                && c.raft.tag@ == raft_tag(c.raft.id),
            Err(ConfigError::PeerIdTooShort) => peer_id@.len() < 8,
            Err(ConfigError::Peers(PeersSettingError::Missing)) => peer_id@.len() >= 8
                && setting(settings@, peers_key()) is None,
            Err(ConfigError::Peers(PeersSettingError::InvalidJson)) => {
                &&& peer_id@.len() >= 8
                &&& setting(settings@, peers_key()) matches Some(text)
                &&& json_string_list(text) is None
            },
            Err(ConfigError::Peers(PeersSettingError::InvalidHex)) => {
                &&& peer_id@.len() >= 8
                &&& setting(settings@, peers_key()) matches Some(text)
                &&& json_string_list(text) matches Some(list)
                &&& decoded_peers(list) is None
            },
            Err(ConfigError::PeerTooShort) => {
                &&& peer_id@.len() >= 8
                &&& peers_setting(settings@) matches Some(peers)
                &&& !all_long_enough(peers)
            },
        },
{
    if peer_id.len() < 8 {
        return Err(ConfigError::PeerIdTooShort);
    }
    let peers = match try_get_peers_from_settings(settings) {
        Ok(p) => p,
        Err(e) => {
            return Err(ConfigError::Peers(e));
        },
    };
    let mut i: usize = 0;
    while i < peers.len()
        invariant
            i <= peers@.len(),
            peer_id@.len() >= 8,
            peers_setting(settings@) == Some(peers_view(peers@)),
            forall|j: int| 0 <= j < i ==> #[trigger] peers_view(peers@)[j].len() >= 8,
        decreases peers.len() - i,
    {
        assert(peers_view(peers@)[i as int] == peers@[i as int]@);
        if peers[i].len() < 8 {
            assert(peers_view(peers@)[i as int].len() < 8);
            assert(!all_long_enough(peers_view(peers@)));
            return Err(ConfigError::PeerTooShort);
        }
        i = i + 1;
    }
    Ok(load_raft_config(peer_id, settings))
}

} // verus!
