//! Apple Silicon GPU backend rules: SMC key encoding and temperature-key
//! discovery, the GPU frequency table, and how IOReport channels are read.

use vstd::prelude::*;

use std::collections::HashMap;

use vstd::string::StringSliceAdditionalSpecFns;

use crate::text::{parse_u32, parse_u32_spec, push_decimal, push_str, starts_with, str_eq, string_from_chars, decimal};

verus! {

broadcast use vstd::std_specs::hash::group_hash_axioms;

/// What the SMC reports about a key.
#[derive(Clone, Copy, Debug, PartialEq, Eq, Structural)]
pub struct KeyInfo {
    pub data_size: u32,
    pub data_type: u32,
    pub data_attributes: u8,
}

/// The SMC data type of a 32-bit float, `"flt "` as a four-character code.
pub const FLOAT_TYPE: u32 = 1718383648;

/// The four-character code of a key: its bytes, most significant first, in a
/// 32-bit word (longer keys keep their last four bytes).
pub open spec fn fourcc(bytes: Seq<u8>) -> u32
    decreases bytes.len(),
{
    if bytes.len() == 0 {
        0
    } else {
        ((fourcc(bytes.drop_last()) as nat * 256 + bytes.last() as nat) % 0x1_0000_0000) as u32
    }
}

/// The code of a key name, as the SMC addresses it.
pub fn key_code(key: &str) -> (code: u32)
    ensures
        code == fourcc(key.spec_bytes()),
{
    let bytes = key.as_bytes();
    let mut acc: u32 = 0;
    let mut i: usize = 0;
    while i < bytes.len()
        invariant
            bytes@ == key.spec_bytes(),
            i <= bytes@.len(),
            acc == fourcc(bytes@.subrange(0, i as int)),
        decreases bytes@.len() - i,
    {
        let b = bytes[i];
        proof {
            assert(bytes@.subrange(0, i + 1).drop_last() =~= bytes@.subrange(0, i as int));
            assert(((acc << 8u32) as int) == ((acc as int) * 256) % 0x1_0000_0000) by (bit_vector);
            assert((acc << 8u32) <= 0xFFFF_FF00u32) by (bit_vector);
            assert(((acc as int) * 256 + b as int) % 0x1_0000_0000 == ((acc as int) * 256) % 0x1_0000_0000 + b as int) by (bit_vector);
        }
        acc = (acc << 8) + b as u32;
        i = i + 1;
    }
    assert(bytes@.subrange(0, bytes@.len() as int) =~= bytes@);
    acc
}

/// The four bytes of a code, most significant first.
pub open spec fn code_bytes(code: u32) -> Seq<u8> {
    seq![(code / 0x100_0000) as u8, ((code / 0x1_0000) % 0x100) as u8, ((code / 0x100) % 0x100) as u8, (code % 0x100) as u8]
}

/// `std::str::from_utf8` of the standard library, owning its result: the
/// characters that the bytes encode when they are valid UTF-8, and nothing
/// otherwise.
#[verifier::external_body]
fn utf8_string(bytes: &[u8]) -> (r: Option<String>)
    ensures
        match r {
            Some(s) => vstd::utf8::valid_utf8(bytes@) && s@ == vstd::utf8::decode_utf8(bytes@),
            None => !vstd::utf8::valid_utf8(bytes@),
        },
{
    std::str::from_utf8(bytes).ok().map(|s| s.to_string())
}

/// The name of the key with the given code: its four bytes read as UTF-8,
/// when they are valid.
pub fn key_name(code: u32) -> (r: Option<String>)
    ensures
        match r {
            Some(s) => vstd::utf8::valid_utf8(code_bytes(code)) && s@ == vstd::utf8::decode_utf8(code_bytes(code)),
            None => !vstd::utf8::valid_utf8(code_bytes(code)),
        },
{
    let mut bytes: Vec<u8> = Vec::new();
    bytes.push((code / 0x100_0000) as u8);
    bytes.push(((code / 0x1_0000) % 0x100) as u8);
    bytes.push(((code / 0x100) % 0x100) as u8);
    bytes.push((code % 0x100) as u8);
    assert(bytes@ =~= code_bytes(code));
    utf8_string(bytes.as_slice())
}

/// The value bytes of a key: the first `data_size` bytes of the SMC reply.
pub fn value_bytes(reply: &[u8], info: KeyInfo) -> (r: Vec<u8>)
    requires
        info.data_size <= reply@.len(),
    ensures
        r@ == reply@.subrange(0, info.data_size as int),
{
    let n = info.data_size as usize;
    let mut r: Vec<u8> = Vec::new();
    let mut i: usize = 0;
    while i < n
        invariant
            n == info.data_size,
            n <= reply@.len(),
            i <= n,
            r@ == reply@.subrange(0, i as int),
        decreases n - i,
    {
        r.push(reply[i]);
        i = i + 1;
        assert(r@ =~= reply@.subrange(0, i as int));
    }
    r
}

/// A connection to the SMC and the key information it already reported.
pub struct SmcConn {
    conn: u32,
    key_cache: HashMap<u32, KeyInfo>,
}

impl SmcConn {
    /// The IOKit connection handle.
    pub closed spec fn handle(&self) -> u32 {
        self.conn
    }

    pub fn conn(&self) -> (r: u32)
        ensures
            r == self.handle(),
    {
        self.conn
    }

    /// The key information reported so far, by key code.
    pub closed spec fn known(&self) -> Map<u32, KeyInfo> {
        self.key_cache@
    }

    /// A connection with nothing known yet.
    pub fn new(conn: u32) -> (r: Self)
        ensures
            r.handle() == conn,
            r.known() == Map::<u32, KeyInfo>::empty(),
    {
        Self { conn, key_cache: HashMap::new() }
    }

    /// The key information already reported for `code`.
    pub fn cached_key_info(&self, code: u32) -> (r: Option<KeyInfo>)
        ensures
            r == (if self.known().contains_key(code) { Some(self.known()[code]) } else { None }),
    {
        match self.key_cache.get(&code) {
            Some(ki) => Some(*ki),
            None => None,
        }
    }

    /// Remember the key information that the SMC reported for `code`.
    pub fn remember_key_info(&mut self, code: u32, info: KeyInfo)
        ensures
            final(self).known() == old(self).known().insert(code, info),
            final(self).handle() == old(self).handle(),
    {
        self.key_cache.insert(code, info);
    }
}

/// The key whose value is the number of SMC keys.
pub open spec fn key_count_code() -> u32 {
    fourcc(vstd::utf8::encode_utf8("#KEY"@))
}

/// The big-endian 32-bit word at the start of `data`.
pub open spec fn be_u32(data: Seq<u8>) -> u32 {
    (data[0] as nat * 0x100_0000 + data[1] as nat * 0x1_0000 + data[2] as nat * 0x100 + data[3] as nat) as u32
}

/// Where a scan for the GPU temperature keys stands.
#[derive(Clone, Debug)]
pub enum ScanPhase {
    /// Waiting for the key information of `#KEY`.
    CountInfo,
    /// Waiting for the value of `#KEY`.
    CountValue(KeyInfo),
    /// Waiting for the code of the key at the current index.
    Name,
    /// Waiting for the key information of a candidate key.
    Info(String, u32),
    /// Waiting for a read of a candidate key's value.
    Value(String, u32, KeyInfo),
    /// Finished.
    Done,
}

/// What the scan needs from the SMC next.
#[derive(Clone, Copy, Debug, PartialEq, Eq, Structural)]
pub enum SmcRequest {
    /// The key information of a key code.
    KeyInfo(u32),
    /// The value of a key code with its key information.
    Value(u32, KeyInfo),
    /// The code of the key at an index.
    KeyAt(u32),
    /// Nothing more: the scan is over.
    Finished,
}

/// What the SMC answered; `None` when the call failed.
#[derive(Clone, Debug)]
pub enum SmcReply {
    KeyInfo(Option<KeyInfo>),
    /// The 32 data bytes of a value read.
    Value(Option<Vec<u8>>),
    KeyAt(Option<u32>),
}

/// A scan for the keys of the GPU temperature sensors: the keys whose name
/// starts with `Tg`, that hold a 4-byte float, and whose value can be read.
/// The scan reads the number of keys from `#KEY`, then looks at every index.
pub struct TempKeyScan {
    pub phase: ScanPhase,
    pub index: u32,
    pub count: u32,
    pub keys: Vec<String>,
}

/// A scan phase as a value, names by their characters.
pub enum PhaseView {
    CountInfo,
    CountValue(KeyInfo),
    Name,
    Info(Seq<char>, u32),
    Value(Seq<char>, u32, KeyInfo),
    Done,
}

pub open spec fn phase_view(p: ScanPhase) -> PhaseView {
    match p {
        ScanPhase::CountInfo => PhaseView::CountInfo,
        ScanPhase::CountValue(ki) => PhaseView::CountValue(ki),
        ScanPhase::Name => PhaseView::Name,
        ScanPhase::Info(n, c) => PhaseView::Info(n@, c),
        ScanPhase::Value(n, c, ki) => PhaseView::Value(n@, c, ki),
        ScanPhase::Done => PhaseView::Done,
    }
}

/// The scan as a value: phase, index, count and the keys found so far.
pub struct ScanView {
    pub phase: PhaseView,
    pub index: u32,
    pub count: u32,
    pub keys: Seq<Seq<char>>,
}

impl TempKeyScan {
    pub open spec fn view_of(&self) -> ScanView {
        ScanView {
            phase: phase_view(self.phase),
            index: self.index,
            count: self.count,
            keys: self.keys@.map_values(|k: String| k@),
        }
    }
}

/// Move to key `i`: ask for its code, or finish when all keys were seen.
pub open spec fn visit(v: ScanView, i: u32) -> (ScanView, SmcRequest) {
    if i < v.count {
        (ScanView { phase: PhaseView::Name, index: i, ..v }, SmcRequest::KeyAt(i))
    } else {
        (ScanView { phase: PhaseView::Done, index: i, ..v }, SmcRequest::Finished)
    }
}

/// Move past the current key.
pub open spec fn skip(v: ScanView) -> (ScanView, SmcRequest) {
    if v.index < v.count {
        visit(v, (v.index + 1) as u32)
    } else {
        (ScanView { phase: PhaseView::Done, ..v }, SmcRequest::Finished)
    }
}

/// A candidate with known key information: read its value if it holds a
/// 4-byte float, otherwise move on.
pub open spec fn check_info(v: ScanView, name: Seq<char>, code: u32, ki: KeyInfo) -> (ScanView, SmcRequest) {
    if ki.data_size == 4 && ki.data_type == FLOAT_TYPE {
        (ScanView { phase: PhaseView::Value(name, code, ki), ..v }, SmcRequest::Value(code, ki))
    } else {
        skip(v)
    }
}

/// A candidate name: look up its key information, asking the SMC when it is
/// not known yet.
pub open spec fn check_name(v: ScanView, known: Map<u32, KeyInfo>, name: Seq<char>) -> (ScanView, SmcRequest) {
    let code = fourcc(vstd::utf8::encode_utf8(name));
    if known.contains_key(code) {
        check_info(v, name, code, known[code])
    } else {
        (ScanView { phase: PhaseView::Info(name, code), ..v }, SmcRequest::KeyInfo(code))
    }
}

/// The key a code names, when its bytes are UTF-8 and it starts with `Tg`.
pub open spec fn candidate(code: u32) -> Option<Seq<char>> {
    if vstd::utf8::valid_utf8(code_bytes(code)) {
        let name = vstd::utf8::decode_utf8(code_bytes(code));
        if "Tg"@.len() <= name.len() && name.subrange(0, "Tg"@.len() as int) == "Tg"@ {
            Some(name)
        } else {
            None
        }
    } else {
        None
    }
}

/// The start of a scan.
pub open spec fn scan_start(known: Map<u32, KeyInfo>) -> (ScanView, SmcRequest) {
    let v = ScanView { phase: PhaseView::CountInfo, index: 0, count: 0, keys: Seq::empty() };
    if known.contains_key(key_count_code()) {
        (
            ScanView { phase: PhaseView::CountValue(known[key_count_code()]), ..v },
            SmcRequest::Value(key_count_code(), known[key_count_code()]),
        )
    } else {
        (v, SmcRequest::KeyInfo(key_count_code()))
    }
}

/// A reply fits the scan when it answers the request: a value read returns
/// at least as many bytes as the key information announced.
pub open spec fn reply_fits(phase: PhaseView, reply: SmcReply) -> bool {
    match (phase, reply) {
        (PhaseView::CountInfo, SmcReply::KeyInfo(_)) => true,
        (PhaseView::CountValue(ki), SmcReply::Value(r)) => r matches Some(b) ==> ki.data_size <= b@.len(),
        (PhaseView::Name, SmcReply::KeyAt(_)) => true,
        (PhaseView::Info(_, _), SmcReply::KeyInfo(_)) => true,
        (PhaseView::Value(_, _, ki), SmcReply::Value(r)) => r matches Some(b) ==> ki.data_size <= b@.len(),
        _ => false,
    }
}

/// One step of the scan: the next scan, what the SMC has reported by then, and
/// the next request.
pub open spec fn scan_step(v: ScanView, known: Map<u32, KeyInfo>, reply: SmcReply) -> (ScanView, Map<u32, KeyInfo>, SmcRequest) {
    match (v.phase, reply) {
        (PhaseView::CountInfo, SmcReply::KeyInfo(r)) => match r {
            None => (ScanView { phase: PhaseView::Done, ..v }, known, SmcRequest::Finished),
            Some(ki) => (
                ScanView { phase: PhaseView::CountValue(ki), ..v },
                known.insert(key_count_code(), ki),
                SmcRequest::Value(key_count_code(), ki),
            ),
        },
        (PhaseView::CountValue(ki), SmcReply::Value(r)) => match r {
            Some(b) if ki.data_size >= 4 => {
                let (w, q) = visit(ScanView { count: be_u32(b@), ..v }, 0);
                (w, known, q)
            },
            _ => (ScanView { phase: PhaseView::Done, ..v }, known, SmcRequest::Finished),
        },
        (PhaseView::Name, SmcReply::KeyAt(r)) => {
            let (w, q) = match r {
                Some(code) => match candidate(code) {
                    Some(name) => check_name(v, known, name),
                    None => skip(v),
                },
                None => skip(v),
            };
            (w, known, q)
        },
        (PhaseView::Info(name, code), SmcReply::KeyInfo(r)) => match r {
            Some(ki) => {
                let (w, q) = check_info(v, name, code, ki);
                (w, known.insert(code, ki), q)
            },
            None => {
                let (w, q) = skip(v);
                (w, known, q)
            },
        },
        (PhaseView::Value(name, _, _), SmcReply::Value(r)) => {
            let found = if r is Some { ScanView { keys: v.keys.push(name), ..v } } else { v };
            let (w, q) = skip(found);
            (w, known, q)
        },
        _ => (v, known, SmcRequest::Finished),
    }
}

impl TempKeyScan {
    /// Move to key `i`.
    fn visit(&mut self, i: u32) -> (req: SmcRequest)
        ensures
            (final(self).view_of(), req) == visit(old(self).view_of(), i),
    {
        self.index = i;
        if i < self.count {
            self.phase = ScanPhase::Name;
            SmcRequest::KeyAt(i)
        } else {
            self.phase = ScanPhase::Done;
            SmcRequest::Finished
        }
    }

    /// Move past the current key.
    fn skip(&mut self) -> (req: SmcRequest)
        ensures
            (final(self).view_of(), req) == skip(old(self).view_of()),
    {
        if self.index < self.count {
            let next = self.index + 1;
            self.visit(next)
        } else {
            self.phase = ScanPhase::Done;
            SmcRequest::Finished
        }
    }

    fn check_info(&mut self, name: String, code: u32, ki: KeyInfo) -> (req: SmcRequest)
        ensures
            (final(self).view_of(), req) == check_info(old(self).view_of(), name@, code, ki),
    {
        if ki.data_size == 4 && ki.data_type == FLOAT_TYPE {
            self.phase = ScanPhase::Value(name, code, ki);
            SmcRequest::Value(code, ki)
        } else {
            self.skip()
        }
    }

    fn check_name(&mut self, smc: &SmcConn, name: String) -> (req: SmcRequest)
        ensures
            (final(self).view_of(), req) == check_name(old(self).view_of(), smc.known(), name@),
    {
        let code = key_code(name.as_str());
        match smc.cached_key_info(code) {
            Some(ki) => self.check_info(name, code, ki),
            None => {
                self.phase = ScanPhase::Info(name, code);
                SmcRequest::KeyInfo(code)
            },
        }
    }

    /// Start a scan; the key information already known is used without asking.
    pub fn start(smc: &SmcConn) -> (r: (TempKeyScan, SmcRequest))
        ensures
            (r.0.view_of(), r.1) == scan_start(smc.known()),
    {
        let code = key_code("#KEY");
        let mut scan = TempKeyScan { phase: ScanPhase::CountInfo, index: 0, count: 0, keys: Vec::new() };
        assert(scan.view_of().keys =~= Seq::<Seq<char>>::empty());
        match smc.cached_key_info(code) {
            Some(ki) => {
                scan.phase = ScanPhase::CountValue(ki);
                (scan, SmcRequest::Value(code, ki))
            },
            None => (scan, SmcRequest::KeyInfo(code)),
        }
    }

    /// Take the SMC's reply to the last request and say what is needed next.
    pub fn resume(&mut self, smc: &mut SmcConn, reply: SmcReply) -> (req: SmcRequest)
        requires
            reply_fits(old(self).view_of().phase, reply),
        ensures
            (final(self).view_of(), final(smc).known(), req) == scan_step(old(self).view_of(), old(smc).known(), reply),
            final(smc).handle() == old(smc).handle(),
    {
        let mut phase = ScanPhase::Done;
        std::mem::swap(&mut phase, &mut self.phase);
        match (phase, reply) {
            (ScanPhase::CountInfo, SmcReply::KeyInfo(r)) => match r {
                None => {
                    self.phase = ScanPhase::Done;
                    SmcRequest::Finished
                },
                Some(ki) => {
                    let code = key_code("#KEY");
                    smc.remember_key_info(code, ki);
                    self.phase = ScanPhase::CountValue(ki);
                    SmcRequest::Value(code, ki)
                },
            },
            (ScanPhase::CountValue(ki), SmcReply::Value(r)) => match r {
                Some(b) => {
                    let data = value_bytes(b.as_slice(), ki);
                    if data.len() >= 4 {
                        self.count = data[0] as u32 * 0x100_0000 + data[1] as u32 * 0x1_0000 + data[2] as u32 * 0x100 + data[3] as u32;
                        self.visit(0)
                    } else {
                        self.phase = ScanPhase::Done;
                        SmcRequest::Finished
                    }
                },
                None => {
                    self.phase = ScanPhase::Done;
                    SmcRequest::Finished
                },
            },
            (ScanPhase::Name, SmcReply::KeyAt(r)) => match r {
                Some(code) => match key_name(code) {
                    Some(name) => {
                        if starts_with(name.as_str(), "Tg") {
                            self.check_name(smc, name)
                        } else {
                            self.skip()
                        }
                    },
                    None => self.skip(),
                },
                None => self.skip(),
            },
            (ScanPhase::Info(name, code), SmcReply::KeyInfo(r)) => match r {
                Some(ki) => {
                    smc.remember_key_info(code, ki);
                    self.check_info(name, code, ki)
                },
                None => self.skip(),
            },
            (ScanPhase::Value(name, _, _), SmcReply::Value(r)) => {
                if r.is_some() {
                    let ghost before = self.keys@;
                    self.keys.push(name);
                    assert(self.keys@.map_values(|k: String| k@) =~= before.map_values(|k: String| k@).push(name@));
                }
                self.skip()
            },
            _ => SmcRequest::Finished,
        }
    }
}

/// Reading a code as a key name and encoding that name again gives the code
/// back: the name that `key_name` returns addresses the same SMC key.
pub proof fn lemma_key_name_roundtrip(code: u32)
    requires
        vstd::utf8::valid_utf8(code_bytes(code)),
    ensures
        fourcc(vstd::utf8::encode_utf8(vstd::utf8::decode_utf8(code_bytes(code)))) == code,
{
    vstd::utf8::decode_utf8_encode_utf8(code_bytes(code));
    let b = code_bytes(code);
    reveal_with_fuel(fourcc, 5);
    assert(b.drop_last().drop_last().drop_last().drop_last() =~= Seq::<u8>::empty());
    assert(b.drop_last().drop_last().drop_last().last() == b[0]);
    assert(b.drop_last().drop_last().last() == b[1]);
    assert(b.drop_last().last() == b[2]);
    assert(b.last() == b[3]);
    let c = code as nat;
    let (b0, b1, b2, b3) = (c / 0x100_0000, (c / 0x1_0000) % 0x100, (c / 0x100) % 0x100, c % 0x100);
    assert(b[0] as nat == b0 && b[1] as nat == b1 && b[2] as nat == b2 && b[3] as nat == b3);
    assert(((((b0 * 256 + b1) % 0x1_0000_0000) * 256 + b2) % 0x1_0000_0000 * 256 + b3) % 0x1_0000_0000 == c) by (nonlinear_arith)
        requires
            c < 0x1_0000_0000,
            b0 == c / 0x100_0000,
            b1 == (c / 0x1_0000) % 0x100,
            b2 == (c / 0x100) % 0x100,
            b3 == c % 0x100,
    ;
}

/// The name of a candidate starts with `Tg`.
pub open spec fn tg_name(n: Seq<char>) -> bool {
    "Tg"@.len() <= n.len() && n.subrange(0, "Tg"@.len() as int) == "Tg"@
}

/// What a scan keeps true: every key found so far is named `Tg…`, a pending
/// candidate is named `Tg…`, and a candidate whose value is being read holds
/// a 4-byte float.
pub open spec fn scan_sound(v: ScanView) -> bool {
    &&& forall|k: int| 0 <= k < v.keys.len() ==> tg_name(#[trigger] v.keys[k])
    &&& (v.phase matches PhaseView::Info(n, _) ==> tg_name(n))
    &&& (v.phase matches PhaseView::Value(n, _, ki) ==> tg_name(n) && ki.data_size == 4 && ki.data_type == FLOAT_TYPE)
}

/// The scan only reports keys that start with `Tg` and hold a 4-byte float
/// whose value could be read; keys found stay found; what the SMC reported
/// stays known; and the scan ends exactly when it says it is finished.
pub proof fn lemma_scan_step_sound(v: ScanView, known: Map<u32, KeyInfo>, reply: SmcReply)
    requires
        scan_sound(v),
        reply_fits(v.phase, reply),
    ensures
        ({
            let (w, known2, req) = scan_step(v, known, reply);
            &&& scan_sound(w)
            &&& w.keys.len() <= v.keys.len() + 1
            &&& w.keys.subrange(0, v.keys.len() as int) == v.keys
            &&& (w.keys.len() > v.keys.len() ==> (v.phase matches PhaseView::Value(n, _, _) && w.keys.last() == n && reply is Value))
            &&& forall|c: u32| known.contains_key(c) ==> #[trigger] known2.contains_key(c)
            &&& (req == SmcRequest::Finished <==> w.phase == PhaseView::Done)
        }),
{
    let (w, known2, req) = scan_step(v, known, reply);
    assert(w.keys.subrange(0, v.keys.len() as int) =~= v.keys);
}

/// A scan starts sound, with no key found.
pub proof fn lemma_scan_start_sound(known: Map<u32, KeyInfo>)
    ensures
        scan_sound(scan_start(known).0),
        scan_start(known).0.keys.len() == 0,
        scan_start(known).1 != SmcRequest::Finished,
{
}

/// What the SMC answers, as functions of the question: the code of the key at
/// an index, the key information of a code, and a value read of a code with
/// its key information (`None` where the call fails).
pub struct SmcModel {
    pub key_at: spec_fn(u32) -> Option<u32>,
    pub info: spec_fn(u32) -> Option<KeyInfo>,
    pub value: spec_fn(u32, KeyInfo) -> Option<Vec<u8>>,
}

/// The SMC's answer to a request.
pub open spec fn answer(o: SmcModel, req: SmcRequest) -> SmcReply {
    match req {
        SmcRequest::KeyInfo(c) => SmcReply::KeyInfo((o.info)(c)),
        SmcRequest::Value(c, ki) => SmcReply::Value((o.value)(c, ki)),
        SmcRequest::KeyAt(i) => SmcReply::KeyAt((o.key_at)(i)),
        SmcRequest::Finished => SmcReply::KeyAt(None),
    }
}

/// The key information already known agrees with what the SMC answers.
pub open spec fn known_agrees(o: SmcModel, known: Map<u32, KeyInfo>) -> bool {
    forall|c: u32| known.contains_key(c) ==> (o.info)(c) == Some(#[trigger] known[c])
}

/// The scan run against the SMC for at most `fuel` steps, from scan `v` with
/// request `req` pending: the scan and the known key information at the end.
pub open spec fn run(o: SmcModel, v: ScanView, known: Map<u32, KeyInfo>, req: SmcRequest, fuel: nat) -> (ScanView, Map<u32, KeyInfo>)
    decreases fuel,
{
    if fuel == 0 || req == SmcRequest::Finished {
        (v, known)
    } else {
        let (w, known2, q) = scan_step(v, known, answer(o, req));
        run(o, w, known2, q, (fuel - 1) as nat)
    }
}

/// The number of keys, as the value of `#KEY` gives it; zero when it cannot
/// be read.
pub open spec fn key_count(o: SmcModel) -> nat {
    match (o.info)(key_count_code()) {
        Some(ki) => match (o.value)(key_count_code(), ki) {
            Some(b) => if ki.data_size >= 4 { be_u32(b@) as nat } else { 0 },
            None => 0,
        },
        None => 0,
    }
}

/// The GPU temperature key at index `i`, if that key is one: named `Tg…`,
/// holding a 4-byte float, with a value that can be read.
pub open spec fn temp_key_at(o: SmcModel, i: u32) -> Option<Seq<char>> {
    match (o.key_at)(i) {
        Some(code) => match candidate(code) {
            Some(name) => {
                let c = fourcc(vstd::utf8::encode_utf8(name));
                match (o.info)(c) {
                    Some(ki) => if ki.data_size == 4 && ki.data_type == FLOAT_TYPE && (o.value)(c, ki) is Some {
                        Some(name)
                    } else {
                        None
                    },
                    None => None,
                }
            },
            None => None,
        },
        None => None,
    }
}

/// The GPU temperature keys among the first `n` indices, in index order.
pub open spec fn temp_keys(o: SmcModel, n: nat) -> Seq<Seq<char>>
    decreases n,
{
    if n == 0 {
        Seq::empty()
    } else {
        match temp_key_at(o, (n - 1) as u32) {
            Some(name) => temp_keys(o, (n - 1) as nat).push(name),
            None => temp_keys(o, (n - 1) as nat),
        }
    }
}

proof fn lemma_run_from_index(o: SmcModel, v: ScanView, known: Map<u32, KeyInfo>, i: u32, fuel: nat)
    requires
        known_agrees(o, known),
        i <= v.count,
        v.keys == temp_keys(o, i as nat),
        fuel >= 3 * (v.count - i) + 1,
    ensures
        ({
            let (w, q) = visit(v, i);
            let (r, _) = run(o, w, known, q, fuel);
            r.phase == PhaseView::Done && r.keys == temp_keys(o, v.count as nat)
        }),
    decreases v.count - i,
{
    let (w, q) = visit(v, i);
    if i < v.count {
        let next = (i + 1) as u32;
        let skipped = visit(w, next);
        assert(skipped == visit(v, next));
        let f1 = (fuel - 1) as nat;
        assert(run(o, w, known, q, fuel) == run(o, scan_step(w, known, answer(o, q)).0, scan_step(w, known, answer(o, q)).1, scan_step(w, known, answer(o, q)).2, f1));
        match (o.key_at)(i) {
            Some(code) => match candidate(code) {
                Some(name) => {
                    let c = fourcc(vstd::utf8::encode_utf8(name));
                    let f2 = (f1 - 1) as nat;
                    let vf = ScanView { keys: v.keys.push(name), ..v };
                    if known.contains_key(c) {
                        let ki = known[c];
                        if ki.data_size == 4 && ki.data_type == FLOAT_TYPE {
                            let wv2 = ScanView { phase: PhaseView::Value(name, c, ki), ..w };
                            assert(run(o, wv2, known, SmcRequest::Value(c, ki), f1) == run(o, skip(if (o.value)(c, ki) is Some { ScanView { keys: wv2.keys.push(name), ..wv2 } } else { wv2 }).0, known, skip(if (o.value)(c, ki) is Some { ScanView { keys: wv2.keys.push(name), ..wv2 } } else { wv2 }).1, f2));
                            if (o.value)(c, ki) is Some {
                                assert(temp_keys(o, next as nat) == v.keys.push(name));
                                assert(skip(ScanView { keys: wv2.keys.push(name), ..wv2 }) == visit(vf, next));
                                lemma_run_from_index(o, vf, known, next, f2);
                            } else {
                                assert(temp_keys(o, next as nat) == v.keys);
                                lemma_run_from_index(o, v, known, next, f2);
                            }
                        } else {
                            assert(temp_keys(o, next as nat) == v.keys);
                            lemma_run_from_index(o, v, known, next, f1);
                        }
                    } else {
                        let f3 = (f2 - 1) as nat;
                        let wi = ScanView { phase: PhaseView::Info(name, c), ..w };
                        match (o.info)(c) {
                            Some(ki) => {
                                let known2 = known.insert(c, ki);
                                assert(known_agrees(o, known2));
                                assert(run(o, wi, known, SmcRequest::KeyInfo(c), f1) == run(o, check_info(wi, name, c, ki).0, known2, check_info(wi, name, c, ki).1, f2));
                                if ki.data_size == 4 && ki.data_type == FLOAT_TYPE {
                                    let wv2 = ScanView { phase: PhaseView::Value(name, c, ki), ..w };
                                    assert(run(o, wv2, known2, SmcRequest::Value(c, ki), f2) == run(o, skip(if (o.value)(c, ki) is Some { ScanView { keys: wv2.keys.push(name), ..wv2 } } else { wv2 }).0, known2, skip(if (o.value)(c, ki) is Some { ScanView { keys: wv2.keys.push(name), ..wv2 } } else { wv2 }).1, f3));
                                    if (o.value)(c, ki) is Some {
                                        assert(temp_keys(o, next as nat) == v.keys.push(name));
                                        assert(skip(ScanView { keys: wv2.keys.push(name), ..wv2 }) == visit(vf, next));
                                        lemma_run_from_index(o, vf, known2, next, f3);
                                    } else {
                                        assert(temp_keys(o, next as nat) == v.keys);
                                        lemma_run_from_index(o, v, known2, next, f3);
                                    }
                                } else {
                                    assert(temp_keys(o, next as nat) == v.keys);
                                    lemma_run_from_index(o, v, known2, next, f2);
                                }
                            },
                            None => {
                                assert(run(o, wi, known, SmcRequest::KeyInfo(c), f1) == run(o, visit(v, next).0, known, visit(v, next).1, f2));
                                assert(temp_keys(o, next as nat) == v.keys);
                                lemma_run_from_index(o, v, known, next, f2);
                            },
                        }
                    }
                },
                None => {
                    assert(temp_keys(o, next as nat) == v.keys);
                    lemma_run_from_index(o, v, known, next, f1);
                },
            },
            None => {
                assert(temp_keys(o, next as nat) == v.keys);
                lemma_run_from_index(o, v, known, next, f1);
            },
        }
    }
}

proof fn lemma_run_from_count_value(o: SmcModel, known: Map<u32, KeyInfo>, ki: KeyInfo, fuel: nat)
    requires
        known_agrees(o, known),
        (o.info)(key_count_code()) == Some(ki),
        fuel >= 3 * key_count(o) + 2,
    ensures
        ({
            let vc = ScanView { phase: PhaseView::CountValue(ki), index: 0, count: 0, keys: Seq::empty() };
            let (r, _) = run(o, vc, known, SmcRequest::Value(key_count_code(), ki), fuel);
            r.phase == PhaseView::Done && r.keys == temp_keys(o, key_count(o))
        }),
{
    let kc = key_count_code();
    let vc = ScanView { phase: PhaseView::CountValue(ki), index: 0, count: 0, keys: Seq::empty() };
    let f1 = (fuel - 1) as nat;
    let (w, k2, q) = scan_step(vc, known, answer(o, SmcRequest::Value(kc, ki)));
    assert(run(o, vc, known, SmcRequest::Value(kc, ki), fuel) == run(o, w, k2, q, f1));
    assert(temp_keys(o, 0) =~= Seq::<Seq<char>>::empty());
    match (o.value)(kc, ki) {
        Some(b) => {
            if ki.data_size >= 4 {
                let base = ScanView { count: be_u32(b@), ..vc };
                assert((w, q) == visit(base, 0));
                lemma_run_from_index(o, base, known, 0, f1);
            } else {
                assert(q == SmcRequest::Finished);
                assert(run(o, w, k2, q, f1) == (w, k2));
            }
        },
        None => {
            assert(q == SmcRequest::Finished);
            assert(run(o, w, k2, q, f1) == (w, k2));
        },
    }
}

/// Run against an SMC whose answers agree with what is already known, the
/// scan finishes within three steps per key and finds exactly the GPU
/// temperature keys, in index order: every key named `Tg…` that holds a
/// 4-byte float whose value can be read.
pub proof fn lemma_scan_finds_every_key(o: SmcModel, known: Map<u32, KeyInfo>, fuel: nat)
    requires
        known_agrees(o, known),
        fuel >= 3 * key_count(o) + 3,
    ensures
        ({
            let (v0, q0) = scan_start(known);
            let (r, _) = run(o, v0, known, q0, fuel);
            r.phase == PhaseView::Done && r.keys == temp_keys(o, key_count(o))
        }),
{
    let kc = key_count_code();
    let (v0, q0) = scan_start(known);
    let f1 = (fuel - 1) as nat;
    if known.contains_key(kc) {
        lemma_run_from_count_value(o, known, known[kc], fuel);
    } else {
        let (w, k2, q) = scan_step(v0, known, answer(o, q0));
        assert(run(o, v0, known, q0, fuel) == run(o, w, k2, q, f1));
        match (o.info)(kc) {
            Some(ki) => {
                assert(known_agrees(o, k2));
                lemma_run_from_count_value(o, k2, ki, f1);
            },
            None => {
                assert(q == SmcRequest::Finished);
                assert(run(o, w, k2, q, f1) == (w, k2));
                assert(temp_keys(o, 0) =~= Seq::<Seq<char>>::empty());
            },
        }
    }
}

/// What `serde_json` reads from a JSON document at `doc[section][0][field]`:
/// `None` when `doc` is not JSON, `Some(None)` when that place holds no
/// string, `Some(Some(s))` when it holds the string `s`.
pub uninterp spec fn json_first_string(doc: Seq<u8>, section: Seq<char>, field: Seq<char>) -> Option<Option<Seq<char>>>;

/// Parse `doc` with `serde_json::from_slice` into a `serde_json::Value` and
/// read `value[section][0][field]` with `Value::as_str`. Its result is named
/// by `json_first_string`; what JSON parsing and indexing give is not stated.
#[verifier::external_body]
fn read_json_string(doc: &[u8], section: &str, field: &str) -> (r: Option<Option<String>>)
    ensures
        match r {
            None => json_first_string(doc@, section@, field@) is None,
            Some(None) => json_first_string(doc@, section@, field@) == Some(None::<Seq<char>>),
            Some(Some(s)) => json_first_string(doc@, section@, field@) == Some(Some(s@)),
        },
{
    let json: serde_json::Value = serde_json::from_slice(doc).ok()?;
    Some(json[section][0][field].as_str().map(|s| s.to_string()))
}

/// The GPU's display name from the chip type (`Apple GPU` when missing) and
/// the text of the GPU core count: ` (N-core GPU)` follows when the count
/// parses as a positive number.
pub open spec fn display_name_spec(chip: Option<Seq<char>>, cores_text: Option<Seq<char>>) -> Seq<char> {
    let c = match chip {
        Some(c) => c,
        None => "Apple GPU"@,
    };
    let cores: nat = match cores_text {
        Some(t) => match parse_u32_spec(t) {
            Some(n) => n as nat,
            None => 0,
        },
        None => 0,
    };
    if cores > 0 {
        c + " ("@ + decimal(cores) + "-core GPU)"@
    } else {
        c
    }
}

pub open spec fn opt_str_view(o: Option<&str>) -> Option<Seq<char>> {
    match o {
        Some(s) => Some(s@),
        None => None,
    }
}

/// Compose the GPU's display name.
pub fn gpu_display_name(chip: Option<&str>, cores_text: Option<&str>) -> (s: String)
    ensures
        s@ == display_name_spec(opt_str_view(chip), opt_str_view(cores_text)),
{
    let mut out: Vec<char> = Vec::new();
    match chip {
        Some(c) => push_str(&mut out, c),
        None => push_str(&mut out, "Apple GPU"),
    }
    let cores: u32 = match cores_text {
        Some(t) => match parse_u32(t) {
            Some(n) => n,
            None => 0,
        },
        None => 0,
    };
    if cores > 0 {
        push_str(&mut out, " (");
        push_decimal(&mut out, cores as u64);
        push_str(&mut out, "-core GPU)");
    }
    string_from_chars(&out)
}

/// The GPU's display name from a `system_profiler` JSON report, read at
/// `SPHardwareDataType[0].chip_type` and `SPDisplaysDataType[0].sppci_cores`;
/// nothing when the report is not JSON.
pub open spec fn gpu_name_spec(doc: Seq<u8>) -> Option<Seq<char>> {
    match json_first_string(doc, "SPHardwareDataType"@, "chip_type"@) {
        None => None,
        Some(chip) => {
            let cores = match json_first_string(doc, "SPDisplaysDataType"@, "sppci_cores"@) {
                Some(Some(t)) => Some(t),
                _ => None,
            };
            Some(display_name_spec(chip, cores))
        },
    }
}

/// The GPU's display name from a `system_profiler` report.
pub fn gpu_name(doc: &[u8]) -> (r: Option<String>)
    ensures
        match r {
            Some(s) => gpu_name_spec(doc@) == Some(s@),
            None => gpu_name_spec(doc@) is None,
        },
{
    let chip = match read_json_string(doc, "SPHardwareDataType", "chip_type") {
        None => return None,
        Some(c) => c,
    };
    let cores = match read_json_string(doc, "SPDisplaysDataType", "sppci_cores") {
        Some(Some(t)) => Some(t),
        _ => None,
    };
    let chip_ref: Option<&str> = match &chip {
        Some(c) => Some(c.as_str()),
        None => None,
    };
    let cores_ref: Option<&str> = match &cores {
        Some(t) => Some(t.as_str()),
        None => None,
    };
    Some(gpu_display_name(chip_ref, cores_ref))
}

/// The little-endian 32-bit word at `at`.
pub open spec fn le_u32(data: Seq<u8>, at: int) -> u32 {
    (data[at] as nat + data[at + 1] as nat * 0x100 + data[at + 2] as nat * 0x1_0000 + data[at + 3] as nat * 0x100_0000) as u32
}

/// The frequencies of a DVFS table: 8-byte entries of (frequency, voltage),
/// of which the frequency is the first little-endian word; trailing bytes
/// that do not fill an entry are ignored. An empty table gives nothing.
pub fn parse_dvfs_freqs(data: &[u8]) -> (r: Option<Vec<u32>>)
    ensures
        data@.len() == 0 ==> r is None,
        data@.len() > 0 ==> (r matches Some(v) && v@.len() == data@.len() / 8
            && forall|k: int| 0 <= k < v@.len() ==> #[trigger] v@[k] == le_u32(data@, 8 * k)),
{
    let len = data.len();
    if len == 0 {
        return None;
    }
    let n = len / 8;
    let mut freqs: Vec<u32> = Vec::new();
    let mut k: usize = 0;
    while k < n
        invariant
            n == data@.len() / 8,
            len == data@.len(),
            k <= n,
            freqs@.len() == k,
            forall|j: int| 0 <= j < k ==> #[trigger] freqs@[j] == le_u32(data@, 8 * j),
        decreases n - k,
    {
        proof {
            assert(8 * k + 8 <= data@.len()) by (nonlinear_arith)
                requires
                    k < n,
                    n == data@.len() / 8,
            ;
        }
        let at = 8 * k;
        let w = data[at] as u32 + data[at + 1] as u32 * 0x100 + data[at + 2] as u32 * 0x1_0000 + data[at + 3] as u32 * 0x100_0000;
        freqs.push(w);
        k = k + 1;
    }
    Some(freqs)
}

/// Frequencies in Hz to whole MHz (rounded down).
pub fn hz_to_mhz(freqs: &[u32]) -> (r: Vec<u32>)
    ensures
        r@.len() == freqs@.len(),
        forall|k: int| 0 <= k < freqs@.len() ==> #[trigger] r@[k] == freqs@[k] / 1_000_000,
{
    let mut r: Vec<u32> = Vec::new();
    let mut k: usize = 0;
    while k < freqs.len()
        invariant
            k <= freqs@.len(),
            r@.len() == k,
            forall|j: int| 0 <= j < k ==> #[trigger] r@[j] == freqs@[j] / 1_000_000,
        decreases freqs@.len() - k,
    {
        r.push(freqs[k] / (1000 * 1000));
        k = k + 1;
    }
    r
}

/// How a sampled IOReport channel is used.
#[derive(Clone, Copy, Debug, PartialEq, Eq, Structural)]
pub enum ChannelUse {
    /// An energy counter whose unit is 1/`per_joule` joule; `gpu` marks the
    /// GPU's own counter.
    Energy { per_joule: u64, gpu: bool },
    /// The GPU performance-state residencies.
    GpuStates,
    /// Not used.
    Ignored,
}

/// The use of a channel, by its group, subgroup, name and unit.
pub open spec fn channel_use_spec(group: Seq<char>, subgroup: Seq<char>, channel: Seq<char>, unit: Seq<char>) -> ChannelUse {
    if group == "Energy Model"@ && (unit == "mJ"@ || unit == "uJ"@ || unit == "nJ"@) {
        ChannelUse::Energy {
            per_joule: if unit == "mJ"@ { 1_000 } else if unit == "uJ"@ { 1_000_000 } else { 1_000_000_000 },
            gpu: channel == "GPU Energy"@,
        }
    } else if group == "GPU Stats"@ && subgroup == "GPU Performance States"@ && channel == "GPUPH"@ {
        ChannelUse::GpuStates
    } else {
        ChannelUse::Ignored
    }
}

/// Classify a sampled channel.
pub fn channel_use(group: &str, subgroup: &str, channel: &str, unit: &str) -> (r: ChannelUse)
    ensures
        r == channel_use_spec(group@, subgroup@, channel@, unit@),
{
    if str_eq(group, "Energy Model") {
        let per_joule: Option<u64> = if str_eq(unit, "mJ") {
            Some(1_000)
        } else if str_eq(unit, "uJ") {
            Some(1_000_000)
        } else if str_eq(unit, "nJ") {
            Some(1_000_000_000)
        } else {
            None
        };
        if let Some(p) = per_joule {
            return ChannelUse::Energy { per_joule: p, gpu: str_eq(channel, "GPU Energy") };
        }
    }
    if str_eq(group, "GPU Stats") && str_eq(subgroup, "GPU Performance States") && str_eq(channel, "GPUPH") {
        ChannelUse::GpuStates
    } else {
        ChannelUse::Ignored
    }
}

/// For the energy group and a unit of mJ, uJ or nJ, the channel is an energy
/// counter with that many units per joule, and it is the GPU's own exactly
/// when it is named `GPU Energy`, whatever the unit.
pub proof fn lemma_energy_channels(group: Seq<char>, subgroup: Seq<char>, channel: Seq<char>, unit: Seq<char>, other_unit: Seq<char>)
    requires
        group == "Energy Model"@,
        unit == "mJ"@ || unit == "uJ"@ || unit == "nJ"@,
        other_unit == "mJ"@ || other_unit == "uJ"@ || other_unit == "nJ"@,
    ensures
        channel_use_spec(group, subgroup, channel, unit) matches ChannelUse::Energy { per_joule, gpu }
            && gpu == (channel == "GPU Energy"@)
            && (unit == "mJ"@ ==> per_joule == 1_000)
            && (unit == "uJ"@ ==> per_joule == 1_000_000)
            && (unit == "nJ"@ ==> per_joule == 1_000_000_000),
        channel_use_spec(group, subgroup, channel, unit)->gpu == channel_use_spec(group, subgroup, channel, other_unit)->gpu,
{
    reveal_strlit("mJ");
    reveal_strlit("uJ");
    reveal_strlit("nJ");
    assert("mJ"@[0] == 'm' && "uJ"@[0] == 'u' && "nJ"@[0] == 'n');
    assert("mJ"@ != "uJ"@ && "mJ"@ != "nJ"@ && "uJ"@ != "nJ"@);
}

/// The GPU performance-state channel is recognised by its group, subgroup
/// and name.
pub proof fn lemma_gpu_state_channel(unit: Seq<char>)
    ensures
        channel_use_spec("GPU Stats"@, "GPU Performance States"@, "GPUPH"@, unit) == ChannelUse::GpuStates,
{
    reveal_strlit("GPU Stats");
    reveal_strlit("Energy Model");
    assert("GPU Stats"@[0] == 'G' && "Energy Model"@[0] == 'E');
    assert("GPU Stats"@ != "Energy Model"@);
}

/// A residency state in which the GPU does no work.
pub open spec fn idle_state(name: Seq<char>) -> bool {
    name == "IDLE"@ || name == "OFF"@ || name == "DOWN"@
}

/// Decide `idle_state`.
pub fn is_idle_state(name: &str) -> (r: bool)
    ensures
        r == idle_state(name@),
{
    str_eq(name, "IDLE") || str_eq(name, "OFF") || str_eq(name, "DOWN")
}

/// Sum of the residencies from position `from` on.
pub open spec fn residency_sum(states: Seq<(String, i64)>, from: int) -> int
    decreases states.len() - from,
{
    if from >= states.len() {
        0
    } else {
        states[from].1 + residency_sum(states, from + 1)
    }
}

/// Position of the first state that is not idle, or the number of states.
pub open spec fn first_active(states: Seq<(String, i64)>, from: int) -> int
    decreases states.len() - from,
{
    if from >= states.len() {
        states.len() as int
    } else if !idle_state(states[from].0@) {
        from
    } else {
        first_active(states, from + 1)
    }
}

proof fn lemma_residency_sum_bound(states: Seq<(String, i64)>, from: int)
    requires
        0 <= from <= states.len(),
    ensures
        -(states.len() - from) * 0x8000_0000_0000_0000 <= residency_sum(states, from) <= (states.len() - from) * 0x8000_0000_0000_0000,
    decreases states.len() - from,
{
    if from < states.len() {
        lemma_residency_sum_bound(states, from + 1);
    }
}

proof fn lemma_first_active_from(states: Seq<(String, i64)>, p: int, from: int)
    requires
        0 <= from <= p <= states.len(),
        forall|j: int| 0 <= j < p ==> {
            let n = (#[trigger] states[j]).0@;
            n == "IDLE"@ || n == "OFF"@ || n == "DOWN"@
        },
        p < states.len() ==> {
            let n = states[p].0@;
            n != "IDLE"@ && n != "OFF"@ && n != "DOWN"@
        },
    ensures
        first_active(states, from) == p,
    decreases p - from,
{
    if from < p {
        assert(idle_state(states[from].0@));
        lemma_first_active_from(states, p, from + 1);
    }
}

/// The idle states are exactly `IDLE`, `OFF` and `DOWN`: when every state
/// before position `p` is named one of them and the state at `p`, if any, is
/// named otherwise, the GPU's active time is the sum from `p` on.
pub proof fn lemma_active_from_first_other_state(states: Seq<(String, i64)>, p: int)
    requires
        0 <= p <= states.len(),
        forall|j: int| 0 <= j < p ==> {
            let n = (#[trigger] states[j]).0@;
            n == "IDLE"@ || n == "OFF"@ || n == "DOWN"@
        },
        p < states.len() ==> {
            let n = states[p].0@;
            n != "IDLE"@ && n != "OFF"@ && n != "DOWN"@
        },
    ensures
        first_active(states, 0) == p,
        residency_sum(states, first_active(states, 0)) == residency_sum(states, p),
{
    lemma_first_active_from(states, p, 0);
}

/// Split GPU residencies into (active, total): the total of all states, and
/// the total from the first state that is not idle (`IDLE`, `OFF`, `DOWN`) on.
pub fn residency_split(states: &[(String, i64)]) -> (r: (i128, i128))
    requires
        states@.len() < 0x1_0000_0000_0000_0000,
    ensures
        r.0 == residency_sum(states@, first_active(states@, 0)),
        r.1 == residency_sum(states@, 0),
{
    let n = states.len();
    let mut offset: usize = 0;
    while offset < n && is_idle_state(states[offset].0.as_str())
        invariant
            n == states@.len(),
            offset <= n,
            first_active(states@, 0) == first_active(states@, offset as int),
        decreases n - offset,
    {
        offset = offset + 1;
    }
    let mut total: i128 = 0;
    let mut active: i128 = 0;
    let mut k: usize = n;
    proof {
        lemma_residency_sum_bound(states@, 0);
    }
    while k > 0
        invariant
            n == states@.len(),
            n < 0x1_0000_0000_0000_0000,
            k <= n,
            offset <= n,
            offset == first_active(states@, 0),
            total == residency_sum(states@, k as int),
            active == residency_sum(states@, if k > offset { k as int } else { offset as int }),
        decreases k,
    {
        k = k - 1;
        proof {
            lemma_residency_sum_bound(states@, k as int);
        }
        let v = states[k].1 as i128;
        total = total + v;
        if k >= offset {
            active = active + v;
        }
    }
    (active, total)
}

} // verus!
