use vstd::prelude::*;

verus! {

/// Marks a storage block that holds a settings record.
pub const STATE_MAGIC: u64 = 0x1145141919810;

/// Bytes of a stored settings record.
pub const STATE_SIZE: usize = 512;

/// Bytes of the version field, NUL-padded.
pub const VERSION_LEN: usize = 64;

/// Where each field starts in a record: the magic, 8 bytes little-endian, then the
/// version field, then one byte each for the page, the two brightnesses and the
/// serial flag.
pub const MAGIC_AT: usize = 0;
pub const VERSION_AT: usize = 8;
pub const PAGE_AT: usize = 72;
pub const GAME_BRIGHTNESS_AT: usize = 73;
pub const LIGHT_BRIGHTNESS_AT: usize = 74;
pub const SERIAL_AT: usize = 75;

/// The screen that the device shows.
#[derive(Debug, Clone, Copy, PartialEq, Eq, Structural)]
pub enum Page {
    Game,
    Light,
}

/// Settings kept across power cycles.
#[derive(Debug, Clone)]
pub struct State {
    pub magic: u64,
    /// The firmware version that wrote the record, NUL-padded to `VERSION_LEN` bytes.
    pub version: Vec<u8>,
    pub page: Page,
    pub game_brightness: u8,
    pub light_brightness: u8,
    pub serial_mode: bool,
}

/// The version tag of this firmware, `v0.1.0`.
pub open spec fn version_tag() -> Seq<u8> {
    seq![118u8, 48u8, 46u8, 49u8, 46u8, 48u8]
}

/// The version tag, NUL-padded to the width of the version field.
pub open spec fn padded_version() -> Seq<u8> {
    Seq::new(VERSION_LEN as nat, |i: int| if i < version_tag().len() { version_tag()[i] } else { 0u8 })
}

/// The little-endian bytes of `m`.
pub open spec fn u64_le(m: u64) -> Seq<u8> {
    seq![
        (m & 0xff) as u8,
        ((m >> 8u64) & 0xff) as u8,
        ((m >> 16u64) & 0xff) as u8,
        ((m >> 24u64) & 0xff) as u8,
        ((m >> 32u64) & 0xff) as u8,
        ((m >> 40u64) & 0xff) as u8,
        ((m >> 48u64) & 0xff) as u8,
        ((m >> 56u64) & 0xff) as u8,
    ]
}

/// The defaults that a device starts from.
pub open spec fn default_state(s: State) -> bool {
    &&& s.magic == STATE_MAGIC
    &&& s.version@ == padded_version()
    &&& s.page == Page::Game
    &&& s.game_brightness == 15
    &&& s.light_brightness == 15
    &&& !s.serial_mode
}

/// A record is valid when it is long enough, starts with the magic, and its version
/// field holds this firmware's tag followed by a NUL.
pub open spec fn record_valid(b: Seq<u8>) -> bool {
    &&& b.len() >= STATE_SIZE
    &&& b.subrange(MAGIC_AT as int, VERSION_AT as int) == u64_le(STATE_MAGIC)
    &&& b.subrange(VERSION_AT as int, VERSION_AT + version_tag().len()) == version_tag()
    &&& b[VERSION_AT + version_tag().len()] == 0
}

pub open spec fn page_byte(p: Page) -> u8 {
    match p {
        Page::Game => 0,
        Page::Light => 1,
    }
}

/// The record that `s` is stored as: magic, version field, page, game brightness,
/// light brightness and serial flag, then zeros up to `STATE_SIZE` bytes.
pub open spec fn encoded(s: State) -> Seq<u8> {
    u64_le(s.magic) + s.version@ + seq![
        page_byte(s.page),
        s.game_brightness,
        s.light_brightness,
        if s.serial_mode { 1u8 } else { 0u8 },
    ] + Seq::new((STATE_SIZE - SERIAL_AT - 1) as nat, |i: int| 0u8)
}

/// The state that a record of at least `STATE_SIZE` bytes holds, with the magic taken
/// as checked.
pub open spec fn decoded(b: Seq<u8>, s: State) -> bool {
    &&& s.magic == STATE_MAGIC
    &&& s.version@ == b.subrange(VERSION_AT as int, PAGE_AT as int)
    &&& s.page == (if b[PAGE_AT as int] == 1 { Page::Light } else { Page::Game })
    &&& s.game_brightness == b[GAME_BRIGHTNESS_AT as int]
    &&& s.light_brightness == b[LIGHT_BRIGHTNESS_AT as int]
    &&& s.serial_mode == (b[SERIAL_AT as int] != 0)
}

/// What loading a record gives: the settings, and whether they must be written back
/// before going on (the record was missing, corrupted or from another version).
pub struct LoadOutcome {
    pub state: State,
    pub persist: bool,
}

fn version_tag_bytes() -> (r: Vec<u8>)
    ensures
        r@ == version_tag(),
{
    let r = vec![118u8, 48u8, 46u8, 49u8, 46u8, 48u8];
    assert(r@ =~= version_tag());
    r
}

fn magic_bytes() -> (r: Vec<u8>)
    ensures
        r@ == u64_le(STATE_MAGIC),
{
    let r = vec![0x10u8, 0x98u8, 0x91u8, 0x41u8, 0x51u8, 0x14u8, 0x01u8, 0x00u8];
    let m: u64 = STATE_MAGIC;
    assert((m & 0xff) as u8 == 0x10u8 && ((m >> 8u64) & 0xff) as u8 == 0x98u8 && ((m >> 16u64) & 0xff) as u8
        == 0x91u8 && ((m >> 24u64) & 0xff) as u8 == 0x41u8 && ((m >> 32u64) & 0xff) as u8 == 0x51u8 && ((m
        >> 40u64) & 0xff) as u8 == 0x14u8 && ((m >> 48u64) & 0xff) as u8 == 0x01u8 && ((m >> 56u64) & 0xff) as u8
        == 0x00u8) by (bit_vector)
        requires m == 0x1145141919810u64;
    assert(r@ =~= u64_le(STATE_MAGIC));
    r
}

impl Default for State {
    /// Magic, this firmware's version, the game page, full brightness, serial off.
    fn default() -> (r: State)
        ensures
            default_state(r),
    {
        let tag = version_tag_bytes();
        let mut version: Vec<u8> = Vec::new();
        let mut i: usize = 0;
        while i < VERSION_LEN
            invariant
                i <= VERSION_LEN,
                tag@ == version_tag(),
                version@ == padded_version().subrange(0, i as int),
            decreases VERSION_LEN - i,
        {
            let b = if i < tag.len() {
                tag[i]
            } else {
                0
            };
            version.push(b);
            i += 1;
            assert(version@ =~= padded_version().subrange(0, i as int));
        }
        assert(version@ =~= padded_version());
        State {
            magic: STATE_MAGIC,
            version,
            page: Page::Game,
            game_brightness: 15,
            light_brightness: 15,
            serial_mode: false,
        }
    }
}

impl State {
    /// The version string of the record: the version field up to its first NUL.
    pub fn version(&self) -> (r: Vec<u8>)
        ensures
            r@.len() <= self.version@.len(),
            r@ == self.version@.subrange(0, r@.len() as int),
            forall|i: int| 0 <= i < r@.len() ==> self.version@[i] != 0,
            r@.len() < self.version@.len() ==> self.version@[r@.len() as int] == 0,
    {
        let mut r: Vec<u8> = Vec::new();
        let mut i: usize = 0;
        while i < self.version.len()
            invariant
                i <= self.version@.len(),
                r@ == self.version@.subrange(0, i as int),
                forall|j: int| 0 <= j < i ==> self.version@[j] != 0,
            decreases self.version@.len() - i,
        {
            if self.version[i] == 0 {
                return r;
            }
            r.push(self.version[i]);
            i += 1;
            assert(r@ =~= self.version@.subrange(0, i as int));
        }
        r
    }

    /// The record of these settings: `STATE_SIZE` bytes, unused ones zero.
    pub fn encode(&self) -> (r: Vec<u8>)
        requires
            self.version@.len() == VERSION_LEN,
        ensures
            r@ == encoded(*self),
    {
        let m = self.magic;
        let mut r: Vec<u8> = vec![
            (m & 0xff) as u8,
            ((m >> 8u64) & 0xff) as u8,
            ((m >> 16u64) & 0xff) as u8,
            ((m >> 24u64) & 0xff) as u8,
            ((m >> 32u64) & 0xff) as u8,
            ((m >> 40u64) & 0xff) as u8,
            ((m >> 48u64) & 0xff) as u8,
            ((m >> 56u64) & 0xff) as u8,
        ];
        assert(r@ =~= u64_le(m));
        let mut i: usize = 0;
        while i < VERSION_LEN
            invariant
                i <= VERSION_LEN,
                self.version@.len() == VERSION_LEN,
                r@.len() == VERSION_AT + i,
                r@.subrange(0, 8) == u64_le(m),
                r@.subrange(VERSION_AT as int, VERSION_AT + i) == self.version@.subrange(0, i as int),
            decreases VERSION_LEN - i,
        {
            let ghost before = r@;
            r.push(self.version[i]);
            i += 1;
            assert(r@.subrange(0, 8) =~= before.subrange(0, 8));
            assert(r@.subrange(VERSION_AT as int, VERSION_AT + i) =~= self.version@.subrange(0, i as int));
        }
        assert(self.version@.subrange(0, VERSION_LEN as int) =~= self.version@);
        let page: u8 = match self.page {
            Page::Game => 0,
            Page::Light => 1,
        };
        r.push(page);
        r.push(self.game_brightness);
        r.push(self.light_brightness);
        r.push(if self.serial_mode { 1 } else { 0 });
        let ghost head = r@;
        while r.len() < STATE_SIZE
            invariant
                r@.len() <= STATE_SIZE,
                r@.len() >= SERIAL_AT + 1,
                r@.subrange(0, SERIAL_AT + 1) == head,
                forall|i: int| SERIAL_AT < i < r@.len() ==> r@[i] == 0,
            decreases STATE_SIZE - r@.len(),
        {
            let ghost before = r@;
            r.push(0);
            assert(r@.subrange(0, SERIAL_AT + 1) =~= before.subrange(0, SERIAL_AT + 1));
        }
        proof {
            assert(r@.subrange(0, 8) =~= head.subrange(0, 8));
            assert(r@.subrange(VERSION_AT as int, PAGE_AT as int) =~= head.subrange(VERSION_AT as int, PAGE_AT as int));
            assert(r@[PAGE_AT as int] == head[PAGE_AT as int]);
            assert(r@[GAME_BRIGHTNESS_AT as int] == head[GAME_BRIGHTNESS_AT as int]);
            assert(r@[LIGHT_BRIGHTNESS_AT as int] == head[LIGHT_BRIGHTNESS_AT as int]);
            assert(r@[SERIAL_AT as int] == head[SERIAL_AT as int]);
            let e = encoded(*self);
            assert(r@.len() == e.len());
            assert forall|i: int| 0 <= i < r@.len() implies r@[i] == e[i] by {
                if i < 8 {
                    assert(r@[i] == r@.subrange(0, 8)[i]);
                } else if i < PAGE_AT {
                    assert(r@[i] == r@.subrange(VERSION_AT as int, PAGE_AT as int)[i - 8]);
                }
            }
            assert(r@ =~= e);
        }
        r
    }

    /// The settings that a record holds, the magic taken as checked.
    pub fn decode(record: &[u8]) -> (r: State)
        requires
            record@.len() >= STATE_SIZE,
        ensures
            decoded(record@, r),
    {
        let mut version: Vec<u8> = Vec::new();
        let mut i: usize = VERSION_AT;
        while i < PAGE_AT
            invariant
                VERSION_AT <= i <= PAGE_AT,
                record@.len() >= STATE_SIZE,
                version@ == record@.subrange(VERSION_AT as int, i as int),
            decreases PAGE_AT - i,
        {
            version.push(record[i]);
            i += 1;
            assert(version@ =~= record@.subrange(VERSION_AT as int, i as int));
        }
        State {
            magic: STATE_MAGIC,
            version,
            page: if record[PAGE_AT] == 1 {
                Page::Light
            } else {
                Page::Game
            },
            game_brightness: record[GAME_BRIGHTNESS_AT],
            light_brightness: record[LIGHT_BRIGHTNESS_AT],
            serial_mode: record[SERIAL_AT] != 0,
        }
    }

    /// Whether `record` is a valid settings record of this firmware.
    pub fn is_valid_record(record: &[u8]) -> (r: bool)
        ensures
            r == record_valid(record@),
    {
        if record.len() < STATE_SIZE {
            return false;
        }
        let magic = magic_bytes();
        let mut i: usize = 0;
        while i < 8
            invariant
                i <= 8,
                record@.len() >= STATE_SIZE,
                magic@ == u64_le(STATE_MAGIC),
                forall|j: int| 0 <= j < i ==> record@[j] == magic@[j],
            decreases 8 - i,
        {
            if record[i] != magic[i] {
                assert(record@.subrange(0, 8)[i as int] != u64_le(STATE_MAGIC)[i as int]);
                return false;
            }
            i += 1;
        }
        assert(record@.subrange(0, 8) =~= u64_le(STATE_MAGIC));
        let tag = version_tag_bytes();
        let mut i: usize = 0;
        while i < tag.len()
            invariant
                i <= tag@.len(),
                tag@ == version_tag(),
                record@.len() >= STATE_SIZE,
                forall|j: int| 0 <= j < i ==> record@[VERSION_AT + j] == tag@[j],
            decreases tag@.len() - i,
        {
            if record[VERSION_AT + i] != tag[i] {
                assert(record@.subrange(VERSION_AT as int, VERSION_AT + version_tag().len())[i as int] != version_tag()[i as int]);
                return false;
            }
            i += 1;
        }
        assert(record@.subrange(VERSION_AT as int, VERSION_AT + version_tag().len()) =~= version_tag());
        record[VERSION_AT + tag.len()] == 0
    }

    /// Loads settings from a stored record. A valid record gives its settings; any
    /// other (wrong magic, wrong version, too short) gives the defaults, which must
    /// then be written back before going on.
    pub fn load(record: &[u8]) -> (r: LoadOutcome)
        ensures
            r.persist == !record_valid(record@),
            record_valid(record@) ==> decoded(record@, r.state),
            !record_valid(record@) ==> default_state(r.state),
    {
        if Self::is_valid_record(record) {
            LoadOutcome { state: Self::decode(record), persist: false }
        } else {
            LoadOutcome { state: State::default(), persist: true }
        }
    }
}

/// A record whose first eight bytes are not the magic is not valid: `load` gives the
/// defaults for it and asks for them to be written back.
pub proof fn lemma_bad_magic_falls_back(record: Seq<u8>)
    requires
        record.len() >= VERSION_AT,
        record.subrange(MAGIC_AT as int, VERSION_AT as int) != u64_le(STATE_MAGIC),
    ensures
        !record_valid(record),
{
}

/// Settings of this firmware written with `encode` load back as the same settings,
/// with nothing to write back.
pub proof fn lemma_saved_settings_load_back(s: State)
    requires
        s.magic == STATE_MAGIC,
        s.version@ == padded_version(),
    ensures
        record_valid(encoded(s)),
        decoded(encoded(s), s),
{
    let e = encoded(s);
    assert(e.subrange(MAGIC_AT as int, VERSION_AT as int) =~= u64_le(STATE_MAGIC));
    assert(e.subrange(VERSION_AT as int, PAGE_AT as int) =~= s.version@);
    assert(e.subrange(VERSION_AT as int, VERSION_AT + version_tag().len()) =~= version_tag());
    assert(e[VERSION_AT + version_tag().len()] == s.version@[version_tag().len() as int]);
}

} // verus!
