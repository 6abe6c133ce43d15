//! Save-file container framing, header checks and the migration decision.
//!
//! On-disk layout (all integers little-endian `u32`):
//!
//! ```text
//! magic         ('SAVG' = 0x53415647)
//! container_ver (currently 1)
//! header_len, header bytes   (MessagePack of the save header)
//! body_len,   body bytes     (MessagePack of the save body)
//! thumb_len,  thumb bytes    (0 if no thumbnail)
//! sha1          [20]         of everything before this footer
//! ```
//!
//! The MessagePack encoding of header and body is done by the host; this
//! module frames and checks the bytes and decides what the loader accepts.

use vstd::prelude::*;
use vstd::bytes::{spec_u32_from_le_bytes, spec_u32_to_le_bytes, u32_from_le_bytes, u32_to_le_bytes};

verus! {

/// Magic number identifying a save file: ASCII `'SAVG'` as a little-endian u32.
pub const SAVE_MAGIC: u32 = 0x53415647;

/// Schema name. Bumped only on incompatible top-level layout changes.
pub const SCHEMA_NAME: &'static str = "adventure-save-v1";

/// Container framing version (length prefixes + footer).
pub const CONTAINER_VERSION: u32 = 1;

/// Current engine semver stamped into new saves.
pub const ENGINE_SEMVER: (u16, u16, u16) = (0, 1, 0);

/// Length of the SHA-1 footer.
pub const DIGEST_LEN: usize = 20;

/// Smallest well-framed file: five length / tag words and the footer.
pub const MIN_CONTAINER_LEN: usize = 40;

// ── SHA-1 ────────────────────────────────────────────────────────────────

/// The SHA-1 digest of a byte string, as `sha1::Sha1::digest` computes it.
pub uninterp spec fn sha1_digest(data: Seq<u8>) -> Seq<u8>;

/// `sha1::Sha1::digest`: the SHA-1 digest of `data`, a 20-byte array
/// (`GenericArray<u8, U20>`) copied into a `Vec`.
#[verifier::external_body]
fn sha1_of(data: &[u8]) -> (r: Vec<u8>)
    ensures
        r@ == sha1_digest(data@),
        r@.len() == 20,
{
    <sha1::Sha1 as sha1::Digest>::digest(data).to_vec()
}

// ── Errors ───────────────────────────────────────────────────────────────

/// Errors produced by save / load.
#[derive(Debug)]
#[allow(inconsistent_fields)]
pub enum SaveError {
    /// Magic number does not match [`SAVE_MAGIC`].
    BadMagic(u32),
    /// Schema name mismatch.
    SchemaMismatch {
        /// Schema name in the file.
        file: String,
        /// Schema name the engine expects.
        engine: String,
    },
    /// Unsupported container framing version.
    UnsupportedContainer(u32),
    /// Engine that wrote the save is too new for this loader.
    EngineTooNew {
        /// Semver in the file.
        file: (u16, u16, u16),
        /// Semver of this loader.
        engine: (u16, u16, u16),
    },
    /// Migration failed for a subsystem.
    MigrationFailed {
        /// Subsystem guid hex.
        subsystem: String,
        /// Version found.
        from: u32,
        /// Version targeted.
        to: u32,
        /// Why.
        reason: String,
    },
    /// MessagePack encode failure.
    Encode(String),
    /// MessagePack decode failure.
    Decode(String),
    /// Truncated or malformed framing.
    Truncated,
    /// SHA-1 footer mismatch.
    Corrupted,
    /// Filesystem error, with the host's description.
    Io(String),
}

// ── Byte helpers ─────────────────────────────────────────────────────────

/// Little-endian u32 at byte offset `i`.
pub open spec fn u32_at(p: Seq<u8>, i: int) -> u32 {
    spec_u32_from_le_bytes(p.subrange(i, i + 4))
}

/// `a == b` on byte slices.
fn bytes_eq(a: &[u8], b: &[u8]) -> (r: bool)
    ensures
        r == (a@ == b@),
{
    if a.len() != b.len() {
        return false;
    }
    let mut i: usize = 0;
    while i < a.len()
        invariant
            i <= a@.len(),
            a@.len() == b@.len(),
            forall|k: int| 0 <= k < i ==> a@[k] == b@[k],
        decreases a.len() - i,
    {
        if a[i] != b[i] {
            return false;
        }
        i = i + 1;
    }
    assert(a@ =~= b@);
    true
}

/// Append all of `src` to `out`.
fn append_bytes(out: &mut Vec<u8>, src: &[u8])
    ensures
        final(out)@ == old(out)@ + src@,
{
    let mut i: usize = 0;
    while i < src.len()
        invariant
            i <= src@.len(),
            out@ == old(out)@ + src@.take(i as int),
        decreases src.len() - i,
    {
        out.push(src[i]);
        i = i + 1;
        assert(src@.take(i as int) == src@.take(i - 1).push(src@[i - 1]));
    }
    assert(src@.take(src@.len() as int) == src@);
}

/// Read a little-endian u32 at `*cursor`, advancing the cursor by 4.
pub fn read_u32(buf: &[u8], cursor: &mut usize) -> (r: Result<u32, SaveError>)
    requires
        *old(cursor) <= buf@.len(),
    ensures
        *old(cursor) + 4 <= buf@.len() ==> r == Ok::<u32, SaveError>(u32_at(buf@, *old(cursor) as int))
            && *final(cursor) == *old(cursor) + 4,
        *old(cursor) + 4 > buf@.len() ==> r == Err::<u32, SaveError>(SaveError::Truncated)
            && *final(cursor) == *old(cursor),
{
    if buf.len() - *cursor < 4 {
        return Err(SaveError::Truncated);
    }
    let c = *cursor;
    let word = vstd::slice::slice_subrange(buf, c, c + 4);
    let v = u32_from_le_bytes(word);
    *cursor = c + 4;
    Ok(v)
}

/// Take `len` bytes at `*cursor`, advancing the cursor past them.
pub fn read_slice<'a>(buf: &'a [u8], cursor: &mut usize, len: usize) -> (r: Result<&'a [u8], SaveError>)
    requires
        *old(cursor) <= buf@.len(),
    ensures
        *old(cursor) + len <= buf@.len() ==> (r matches Ok(s) && s@ == buf@.subrange(
            *old(cursor) as int,
            *old(cursor) + len,
        ) && *final(cursor) == *old(cursor) + len),
        *old(cursor) + len > buf@.len() ==> (r matches Err(SaveError::Truncated) && *final(cursor)
            == *old(cursor)),
{
    if buf.len() - *cursor < len {
        return Err(SaveError::Truncated);
    }
    let c = *cursor;
    let s = vstd::slice::slice_subrange(buf, c, c + len);
    *cursor = c + len;
    Ok(s)
}

// ── Container ────────────────────────────────────────────────────────────

/// The framed sections of a save file.
#[derive(Debug)]
pub struct Container {
    /// Encoded header bytes.
    pub header: Vec<u8>,
    /// Encoded body bytes.
    pub body: Vec<u8>,
    /// Thumbnail bytes, when the thumbnail section is non-empty.
    pub thumbnail_png: Option<Vec<u8>>,
}

/// Everything before the footer: the tagged, length-prefixed sections.
pub open spec fn container_payload(h: Seq<u8>, b: Seq<u8>, t: Seq<u8>) -> Seq<u8> {
    spec_u32_to_le_bytes(SAVE_MAGIC) + spec_u32_to_le_bytes(CONTAINER_VERSION) + spec_u32_to_le_bytes(
        h.len() as u32,
    ) + h + spec_u32_to_le_bytes(b.len() as u32) + b + spec_u32_to_le_bytes(t.len() as u32) + t
}

/// The whole file: payload followed by its SHA-1.
pub open spec fn container_bytes(h: Seq<u8>, b: Seq<u8>, t: Seq<u8>) -> Seq<u8> {
    container_payload(h, b, t) + sha1_digest(container_payload(h, b, t))
}

/// What a successful parse yields: header, body and optional thumbnail.
pub type Sections = (Seq<u8>, Seq<u8>, Option<Seq<u8>>);

/// Sections of a payload (the file without its footer), or the framing error.
pub open spec fn frames_spec(p: Seq<u8>) -> Result<Sections, SaveError> {
    let magic = u32_at(p, 0);
    let container = u32_at(p, 4);
    let hl = u32_at(p, 8) as int;
    let h_end = 12 + hl;
    if magic != SAVE_MAGIC {
        Err(SaveError::BadMagic(magic))
    } else if container != CONTAINER_VERSION {
        Err(SaveError::UnsupportedContainer(container))
    } else if h_end + 4 > p.len() {
        Err(SaveError::Truncated)
    } else {
        let bl = u32_at(p, h_end) as int;
        let b_end = h_end + 4 + bl;
        if b_end + 4 > p.len() {
            Err(SaveError::Truncated)
        } else {
            let tl = u32_at(p, b_end) as int;
            let t_end = b_end + 4 + tl;
            if t_end > p.len() {
                Err(SaveError::Truncated)
            } else {
                Ok(
                    (
                        p.subrange(12, h_end),
                        p.subrange(h_end + 4, b_end),
                        if tl > 0 {
                            Some(p.subrange(b_end + 4, t_end))
                        } else {
                            None
                        },
                    ),
                )
            }
        }
    }
}

/// What [`parse_container`] makes of a file.
pub open spec fn container_spec(bytes: Seq<u8>) -> Result<Sections, SaveError> {
    let n = bytes.len();
    if n < MIN_CONTAINER_LEN {
        Err(SaveError::Truncated)
    } else if bytes.subrange(n - 20, n as int) != sha1_digest(bytes.subrange(0, n - 20)) {
        Err(SaveError::Corrupted)
    } else {
        frames_spec(bytes.subrange(0, n - 20))
    }
}

/// View of a parsed container.
pub open spec fn container_view(c: Container) -> Sections {
    (c.header@, c.body@, match c.thumbnail_png {
        Some(t) => Some(t@),
        None => None,
    })
}

/// Whether a parse result agrees with the spec result.
pub open spec fn parsed_as(r: Result<Container, SaveError>, s: Result<Sections, SaveError>) -> bool {
    match r {
        Ok(c) => s == Ok::<Sections, SaveError>(container_view(c)),
        Err(e) => s == Err::<Sections, SaveError>(e),
    }
}

/// Frame encoded header, body and thumbnail into a save file: tagged
/// length-prefixed sections and a SHA-1 footer over everything before it.
pub fn frame_container(header: &[u8], body: &[u8], thumb: &[u8]) -> (r: Vec<u8>)
    requires
        header@.len() <= u32::MAX,
        body@.len() <= u32::MAX,
        thumb@.len() <= u32::MAX,
    ensures
        r@ == container_bytes(header@, body@, thumb@),
        sha1_digest(container_payload(header@, body@, thumb@)).len() == 20,
        container_spec(r@) == Ok::<Sections, SaveError>(
            (header@, body@, if thumb@.len() > 0 { Some(thumb@) } else { None }),
        ),
{
    let mut out: Vec<u8> = Vec::new();
    let w = u32_to_le_bytes(SAVE_MAGIC);
    append_bytes(&mut out, w.as_slice());
    let w = u32_to_le_bytes(CONTAINER_VERSION);
    append_bytes(&mut out, w.as_slice());
    let w = u32_to_le_bytes(header.len() as u32);
    append_bytes(&mut out, w.as_slice());
    append_bytes(&mut out, header);
    let w = u32_to_le_bytes(body.len() as u32);
    append_bytes(&mut out, w.as_slice());
    append_bytes(&mut out, body);
    let w = u32_to_le_bytes(thumb.len() as u32);
    append_bytes(&mut out, w.as_slice());
    append_bytes(&mut out, thumb);
    assert(out@ == container_payload(header@, body@, thumb@));
    let digest = sha1_of(out.as_slice());
    let ghost payload = out@;
    append_bytes(&mut out, digest.as_slice());
    proof {
        lemma_container_roundtrip(header@, body@, thumb@);
    }
    out
}

/// Parse a save file into its sections: checks length, the SHA-1 footer,
/// the magic number, the container version and every length prefix.
pub fn parse_container(bytes: &[u8]) -> (r: Result<Container, SaveError>)
    ensures
        parsed_as(r, container_spec(bytes@)),
{
    if bytes.len() < MIN_CONTAINER_LEN {
        return Err(SaveError::Truncated);
    }
    let n = bytes.len();
    let payload = vstd::slice::slice_subrange(bytes, 0, n - 20);
    let footer = vstd::slice::slice_subrange(bytes, n - 20, n);
    let expected = sha1_of(payload);
    if !bytes_eq(footer, expected.as_slice()) {
        return Err(SaveError::Corrupted);
    }
    let p = payload;
    let mut cursor: usize = 0;
    let magic = match read_u32(p, &mut cursor) {
        Ok(v) => v,
        Err(e) => return Err(e),
    };
    if magic != SAVE_MAGIC {
        return Err(SaveError::BadMagic(magic));
    }
    let container = match read_u32(p, &mut cursor) {
        Ok(v) => v,
        Err(e) => return Err(e),
    };
    if container != CONTAINER_VERSION {
        return Err(SaveError::UnsupportedContainer(container));
    }
    let header_len = match read_u32(p, &mut cursor) {
        Ok(v) => v as usize,
        Err(e) => return Err(e),
    };
    let header = match read_slice(p, &mut cursor, header_len) {
        Ok(s) => s,
        Err(e) => return Err(e),
    };
    let body_len = match read_u32(p, &mut cursor) {
        Ok(v) => v as usize,
        Err(e) => return Err(e),
    };
    let body = match read_slice(p, &mut cursor, body_len) {
        Ok(s) => s,
        Err(e) => return Err(e),
    };
    let thumb_len = match read_u32(p, &mut cursor) {
        Ok(v) => v as usize,
        Err(e) => return Err(e),
    };
    let thumb = match read_slice(p, &mut cursor, thumb_len) {
        Ok(s) => s,
        Err(e) => return Err(e),
    };
    let thumbnail_png = if thumb_len > 0 {
        Some(vstd::slice::slice_to_vec(thumb))
    } else {
        None
    };
    Ok(
        Container {
            header: vstd::slice::slice_to_vec(header),
            body: vstd::slice::slice_to_vec(body),
            thumbnail_png,
        },
    )
}

/// Framing then parsing gives the sections back: a file framed from
/// `h`, `b`, `t` parses to `h`, `b` and the thumbnail when `t` is non-empty
/// (whenever the digest has its 20 bytes).
pub proof fn lemma_container_roundtrip(h: Seq<u8>, b: Seq<u8>, t: Seq<u8>)
    requires
        h.len() <= u32::MAX,
        b.len() <= u32::MAX,
        t.len() <= u32::MAX,
        sha1_digest(container_payload(h, b, t)).len() == 20,
    ensures
        container_spec(container_bytes(h, b, t)) == Ok::<Sections, SaveError>(
            (h, b, if t.len() > 0 { Some(t) } else { None }),
        ),
{
    vstd::bytes::lemma_auto_spec_u32_to_from_le_bytes();
    let p = container_payload(h, b, t);
    let bytes = container_bytes(h, b, t);
    let n = bytes.len();
    assert(bytes.subrange(0, n - 20) =~= p);
    assert(bytes.subrange(n - 20, n as int) =~= sha1_digest(p));
    let hl = h.len() as int;
    let bl = b.len() as int;
    let tl = t.len() as int;
    assert(p.subrange(0, 4) =~= spec_u32_to_le_bytes(SAVE_MAGIC));
    assert(p.subrange(4, 8) =~= spec_u32_to_le_bytes(CONTAINER_VERSION));
    assert(p.subrange(8, 12) =~= spec_u32_to_le_bytes(h.len() as u32));
    assert(p.subrange(12, 12 + hl) =~= h);
    assert(p.subrange(12 + hl, 16 + hl) =~= spec_u32_to_le_bytes(b.len() as u32));
    assert(p.subrange(16 + hl, 16 + hl + bl) =~= b);
    assert(p.subrange(16 + hl + bl, 20 + hl + bl) =~= spec_u32_to_le_bytes(t.len() as u32));
    assert(p.subrange(20 + hl + bl, 20 + hl + bl + tl) =~= t);
}

// ── Custom versions ──────────────────────────────────────────────────────

/// GUID of a subsystem that has its own persisted-shape version.
#[derive(Clone, Copy, Hash, Debug)]
pub struct CustomVersionGuid(pub [u8; 16]);

/// Lowercase hex of a byte string, two digits per byte.
pub open spec fn hex_bytes(s: Seq<u8>) -> Seq<char> {
    Seq::new(
        2 * s.len(),
        |i: int|
            if i % 2 == 0 {
                crate::asset_id::hex_digit((s[i / 2] / 16) as u64)
            } else {
                crate::asset_id::hex_digit((s[i / 2] % 16) as u64)
            },
    )
}

impl CustomVersionGuid {
    /// Human-readable hex for logs and errors: 32 lowercase hex digits.
    pub fn hex(&self) -> (r: String)
        ensures
            r@ == hex_bytes(self.0@),
    {
        let mut s = String::new();
        let mut i: usize = 0;
        while i < 16
            invariant
                i <= 16,
                self.0@.len() == 16,
                s@ == hex_bytes(self.0@).take(2 * i as int),
            decreases 16 - i,
        {
            let b = self.0[i];
            crate::text::push_char(&mut s, crate::asset_id::nibble_char((b / 16) as u64));
            crate::text::push_char(&mut s, crate::asset_id::nibble_char((b % 16) as u64));
            i = i + 1;
            assert(s@ =~= hex_bytes(self.0@).take(2 * i as int));
        }
        assert(hex_bytes(self.0@).take(32) =~= hex_bytes(self.0@));
        s
    }

    /// Byte-wise equality of two GUIDs.
    pub fn same(&self, other: &CustomVersionGuid) -> (r: bool)
        ensures
            r == (self.0@ == other.0@),
    {
        bytes_eq(&self.0, &other.0)
    }
}

/// GUID of the tags / gameplay-flag subsystem subsystem: the ASCII bytes of `TAGS____________`.
pub open spec fn guid_tags_bytes() -> Seq<u8> {
    seq![84u8, 65u8, 71u8, 83u8, 95u8, 95u8, 95u8, 95u8, 95u8, 95u8, 95u8, 95u8, 95u8, 95u8, 95u8, 95u8]
}

/// Tags / gameplay-flag subsystem: `TAGS____________`.
pub fn guid_tags() -> (r: CustomVersionGuid)
    ensures
        r.0@ == guid_tags_bytes(),
{
    let r = CustomVersionGuid([84, 65, 71, 83, 95, 95, 95, 95, 95, 95, 95, 95, 95, 95, 95, 95]);
    assert(r.0@ =~= guid_tags_bytes());
    r
}

/// GUID of the inventory items subsystem: the ASCII bytes of `INVENTORY_______`.
pub open spec fn guid_inventory_bytes() -> Seq<u8> {
    seq![73u8, 78u8, 86u8, 69u8, 78u8, 84u8, 79u8, 82u8, 89u8, 95u8, 95u8, 95u8, 95u8, 95u8, 95u8, 95u8]
}

/// Inventory items: `INVENTORY_______`.
pub fn guid_inventory() -> (r: CustomVersionGuid)
    ensures
        r.0@ == guid_inventory_bytes(),
{
    let r = CustomVersionGuid([73, 78, 86, 69, 78, 84, 79, 82, 89, 95, 95, 95, 95, 95, 95, 95]);
    assert(r.0@ =~= guid_inventory_bytes());
    r
}

/// GUID of the variable table subsystem: the ASCII bytes of `VARS____________`.
pub open spec fn guid_vars_bytes() -> Seq<u8> {
    seq![86u8, 65u8, 82u8, 83u8, 95u8, 95u8, 95u8, 95u8, 95u8, 95u8, 95u8, 95u8, 95u8, 95u8, 95u8, 95u8]
}

/// Variable table: `VARS____________`.
pub fn guid_vars() -> (r: CustomVersionGuid)
    ensures
        r.0@ == guid_vars_bytes(),
{
    let r = CustomVersionGuid([86, 65, 82, 83, 95, 95, 95, 95, 95, 95, 95, 95, 95, 95, 95, 95]);
    assert(r.0@ =~= guid_vars_bytes());
    r
}

/// GUID of the dialog history / node pointers subsystem: the ASCII bytes of `DIALOG__________`.
pub open spec fn guid_dialog_bytes() -> Seq<u8> {
    seq![68u8, 73u8, 65u8, 76u8, 79u8, 71u8, 95u8, 95u8, 95u8, 95u8, 95u8, 95u8, 95u8, 95u8, 95u8, 95u8]
}

/// Dialog history / node pointers: `DIALOG__________`.
pub fn guid_dialog() -> (r: CustomVersionGuid)
    ensures
        r.0@ == guid_dialog_bytes(),
{
    let r = CustomVersionGuid([68, 73, 65, 76, 79, 71, 95, 95, 95, 95, 95, 95, 95, 95, 95, 95]);
    assert(r.0@ =~= guid_dialog_bytes());
    r
}

/// GUID of the scripting side-state (reserved) subsystem: the ASCII bytes of `SCRIPTING_______`.
pub open spec fn guid_scripting_bytes() -> Seq<u8> {
    seq![83u8, 67u8, 82u8, 73u8, 80u8, 84u8, 73u8, 78u8, 71u8, 95u8, 95u8, 95u8, 95u8, 95u8, 95u8, 95u8]
}

/// Scripting side-state (reserved): `SCRIPTING_______`.
pub fn guid_scripting() -> (r: CustomVersionGuid)
    ensures
        r.0@ == guid_scripting_bytes(),
{
    let r = CustomVersionGuid([83, 67, 82, 73, 80, 84, 73, 78, 71, 95, 95, 95, 95, 95, 95, 95]);
    assert(r.0@ =~= guid_scripting_bytes());
    r
}

/// GUID of the music + bus volumes subsystem: the ASCII bytes of `AUDIO___________`.
pub open spec fn guid_audio_bytes() -> Seq<u8> {
    seq![65u8, 85u8, 68u8, 73u8, 79u8, 95u8, 95u8, 95u8, 95u8, 95u8, 95u8, 95u8, 95u8, 95u8, 95u8, 95u8]
}

/// Music + bus volumes: `AUDIO___________`.
pub fn guid_audio() -> (r: CustomVersionGuid)
    ensures
        r.0@ == guid_audio_bytes(),
{
    let r = CustomVersionGuid([65, 85, 68, 73, 79, 95, 95, 95, 95, 95, 95, 95, 95, 95, 95, 95]);
    assert(r.0@ =~= guid_audio_bytes());
    r
}

// ── Version lists (a `SmallVec` of at most eight inline entries) ────────

/// Per-subsystem versions as the save header stores them: a
/// `SmallVec<[(CustomVersionGuid, u32); 8]>` (eight entries inline).
#[verifier::external_body]
pub struct VersionList {
    list: smallvec::SmallVec<[(CustomVersionGuid, u32); 8]>,
}

/// The entries of a version list, in order, each GUID by its bytes.
pub uninterp spec fn version_entries(v: VersionList) -> Seq<(Seq<u8>, u32)>;

impl VersionList {
    /// `SmallVec::new`: an empty list.
    #[verifier::external_body]
    fn new() -> (r: VersionList)
        ensures
            version_entries(r) == Seq::<(Seq<u8>, u32)>::empty(),
    {
        VersionList { list: smallvec::SmallVec::new() }
    }

    /// `SmallVec::push`: append one entry at the end.
    #[verifier::external_body]
    fn push(&mut self, guid: CustomVersionGuid, version: u32)
        ensures
            version_entries(*final(self)) == version_entries(*old(self)).push((guid.0@, version)),
    {
        self.list.push((guid, version))
    }

    /// `SmallVec::len`: the number of entries.
    #[verifier::external_body]
    fn len(&self) -> (r: usize)
        ensures
            r == version_entries(*self).len(),
    {
        self.list.len()
    }

    /// Indexing: the entry at `i`.
    #[verifier::external_body]
    fn get(&self, i: usize) -> (r: (CustomVersionGuid, u32))
        requires
            i < version_entries(*self).len(),
        ensures
            (r.0.0@, r.1) == version_entries(*self)[i as int],
    {
        self.list[i]
    }

    /// `SmallVec::clone`: a list with the same entries.
    #[verifier::external_body]
    fn duplicate(&self) -> (r: VersionList)
        ensures
            version_entries(r) == version_entries(*self),
    {
        VersionList { list: self.list.clone() }
    }
}

impl VersionList {
    /// A list holding `pairs`, in order.
    pub fn from_pairs(pairs: &Vec<(CustomVersionGuid, u32)>) -> (r: VersionList)
        ensures
            version_entries(r) == pairs_view(pairs@),
    {
        let mut out = VersionList::new();
        let mut i: usize = 0;
        while i < pairs.len()
            invariant
                i <= pairs@.len(),
                version_entries(out) == pairs_view(pairs@).take(i as int),
            decreases pairs.len() - i,
        {
            let (g, v) = pairs[i];
            out.push(g, v);
            i = i + 1;
            assert(pairs_view(pairs@).take(i as int) =~= pairs_view(pairs@).take(i - 1).push(
                (g.0@, v),
            ));
        }
        assert(pairs_view(pairs@).take(pairs@.len() as int) =~= pairs_view(pairs@));
        out
    }

    /// The entries as a vector of pairs, in order.
    pub fn to_pairs(&self) -> (r: Vec<(CustomVersionGuid, u32)>)
        ensures
            pairs_view(r@) == version_entries(*self),
    {
        let n = self.len();
        let mut out: Vec<(CustomVersionGuid, u32)> = Vec::new();
        let mut i: usize = 0;
        while i < n
            invariant
                i <= n,
                n == version_entries(*self).len(),
                pairs_view(out@) == version_entries(*self).take(i as int),
            decreases n - i,
        {
            let e = self.get(i);
            let ghost prev = out@;
            out.push(e);
            i = i + 1;
            assert(pairs_view(out@) =~= pairs_view(prev).push((e.0.0@, e.1)));
            assert(pairs_view(out@) =~= version_entries(*self).take(i as int));
        }
        assert(version_entries(*self).take(n as int) =~= version_entries(*self));
        out
    }

    /// Version recorded for `guid`: the first matching entry, 0 if none.
    pub fn version_of(&self, guid: CustomVersionGuid) -> (r: u32)
        ensures
            r == version_in(version_entries(*self), guid.0@),
    {
        let n = self.len();
        let mut i: usize = 0;
        assert(version_entries(*self).skip(0) =~= version_entries(*self));
        while i < n
            invariant
                i <= n,
                n == version_entries(*self).len(),
                version_in(version_entries(*self), guid.0@) == version_in(
                    version_entries(*self).skip(i as int),
                    guid.0@,
                ),
            decreases n - i,
        {
            let (g, v) = self.get(i);
            assert(version_entries(*self).skip(i as int).drop_first() =~= version_entries(
                *self,
            ).skip(i + 1));
            if g.same(&guid) {
                return v;
            }
            i = i + 1;
        }
        0
    }
}

/// View of a vector of (guid, version) pairs.
pub open spec fn pairs_view(v: Seq<(CustomVersionGuid, u32)>) -> Seq<(Seq<u8>, u32)> {
    v.map_values(|p: (CustomVersionGuid, u32)| (p.0.0@, p.1))
}

/// Version of the first entry for `guid`, 0 when there is none.
pub open spec fn version_in(entries: Seq<(Seq<u8>, u32)>, guid: Seq<u8>) -> u32
    decreases entries.len(),
{
    if entries.len() == 0 {
        0
    } else if entries[0].0 == guid {
        entries[0].1
    } else {
        version_in(entries.drop_first(), guid)
    }
}

/// The versions written into new saves: every subsystem at version 1.
pub open spec fn current_versions_spec() -> Seq<(Seq<u8>, u32)> {
    seq![
        (guid_tags_bytes(), 1u32),
        (guid_inventory_bytes(), 1u32),
        (guid_vars_bytes(), 1u32),
        (guid_dialog_bytes(), 1u32),
        (guid_scripting_bytes(), 1u32),
        (guid_audio_bytes(), 1u32),
    ]
}

/// Current custom versions written into new saves.
pub fn current_custom_versions() -> (r: VersionList)
    ensures
        version_entries(r) == current_versions_spec(),
{
    let mut v = VersionList::new();
    v.push(guid_tags(), 1);
    v.push(guid_inventory(), 1);
    v.push(guid_vars(), 1);
    v.push(guid_dialog(), 1);
    v.push(guid_scripting(), 1);
    v.push(guid_audio(), 1);
    assert(version_entries(v) =~= current_versions_spec());
    v
}

/// One remembered dialog line (for the recap screen).
#[derive(Debug, Clone, PartialEq, Eq)]
pub struct DialogHistoryEntry {
    /// Speaker tag string (e.g. `Speaker.Bob`).
    pub speaker: String,
    /// Line text.
    pub text: String,
}

// ── Header checks ──────────────────────────────────────────────────────────

/// What the loader checks of a decoded save header.
pub struct SaveHeaderInfo {
    /// Must equal [`SAVE_MAGIC`].
    pub magic: u32,
    /// Engine that wrote this save.
    pub engine_semver: (u16, u16, u16),
    /// Top-level schema name.
    pub schema_name: String,
    /// Per-subsystem versions.
    pub custom_versions: VersionList,
}

impl SaveHeaderInfo {
    /// Look up a subsystem's custom version (0 if missing).
    pub fn custom_version_of(&self, guid: CustomVersionGuid) -> (r: u32)
        ensures
            r == version_in(version_entries(self.custom_versions), guid.0@),
    {
        self.custom_versions.version_of(guid)
    }
}

/// Whether some current subsystem version is newer than what `entries` records.
pub open spec fn needs_migration_spec(entries: Seq<(Seq<u8>, u32)>) -> bool {
    exists|k: int|
        0 <= k < current_versions_spec().len() && #[trigger] version_in(
            entries,
            current_versions_spec()[k].0,
        ) < current_versions_spec()[k].1
}

/// Whether the body must go through the migration path: some subsystem in
/// the header is older than its current version.
pub fn needs_any_migration(header: &SaveHeaderInfo) -> (r: bool)
    ensures
        r == needs_migration_spec(version_entries(header.custom_versions)),
{
    let current = current_custom_versions();
    let n = current.len();
    let ghost entries = version_entries(header.custom_versions);
    let mut i: usize = 0;
    while i < n
        invariant
            i <= n,
            n == current_versions_spec().len(),
            version_entries(current) == current_versions_spec(),
            entries == version_entries(header.custom_versions),
            forall|k: int|
                0 <= k < i ==> !(#[trigger] version_in(entries, current_versions_spec()[k].0)
                    < current_versions_spec()[k].1),
        decreases n - i,
    {
        let (guid, cur) = current.get(i);
        if header.custom_version_of(guid) < cur {
            assert(version_in(entries, current_versions_spec()[i as int].0) < current_versions_spec()[i as int].1);
            return true;
        }
        i = i + 1;
    }
    false
}

/// Loads and validates save blobs.
pub struct Loader {
    engine_semver: (u16, u16, u16),
    /// Accept files with engine major <= this major.
    max_major: u16,
}

/// What [`Loader::check_header`] decides for a header.
pub open spec fn header_check_spec(
    magic: u32,
    file_semver: (u16, u16, u16),
    schema: Seq<char>,
    max_major: u16,
) -> Option<int> {
    if magic != SAVE_MAGIC {
        Some(0)
    } else if schema != SCHEMA_NAME@ {
        Some(1)
    } else if file_semver.0 > max_major {
        Some(2)
    } else {
        None
    }
}

/// A header stamped by a saver is accepted by a loader whose newest
/// engine major is at least the saver's: magic and schema name match.
pub proof fn lemma_saved_header_accepted(saver: Saver, max_major: u16)
    requires
        saver.engine_semver_spec().0 <= max_major,
    ensures
        header_check_spec(SAVE_MAGIC, saver.engine_semver_spec(), SCHEMA_NAME@, max_major) is None,
{
}

impl Loader {
    /// Loader for the current engine.
    pub fn new() -> (r: Loader)
        ensures
            r.engine_semver() == ENGINE_SEMVER,
            r.max_major() == ENGINE_SEMVER.0,
    {
        Loader { engine_semver: ENGINE_SEMVER, max_major: ENGINE_SEMVER.0 }
    }

    /// Semver of this loader.
    pub closed spec fn engine_semver(self) -> (u16, u16, u16) {
        self.engine_semver
    }

    /// Largest engine major version this loader accepts.
    pub closed spec fn max_major(self) -> u16 {
        self.max_major
    }

    /// Split a save file into its sections (see [`parse_container`]).
    pub fn open(&self, bytes: &[u8]) -> (r: Result<Container, SaveError>)
        ensures
            parsed_as(r, container_spec(bytes@)),
    {
        parse_container(bytes)
    }

    /// Accept or refuse a decoded header: wrong magic, wrong schema name, or
    /// an engine major newer than this loader's.
    pub fn check_header(&self, header: &SaveHeaderInfo) -> (r: Result<(), SaveError>)
        ensures
            header.magic != SAVE_MAGIC ==> r == Err::<(), SaveError>(SaveError::BadMagic(header.magic)),
            header.magic == SAVE_MAGIC && header.schema_name@ != SCHEMA_NAME@ ==> (r matches Err(
                SaveError::SchemaMismatch { file, engine },
            ) && file@ == header.schema_name@ && engine@ == SCHEMA_NAME@),
            header.magic == SAVE_MAGIC && header.schema_name@ == SCHEMA_NAME@
                && header.engine_semver.0 > self.max_major() ==> r == Err::<(), SaveError>(
                SaveError::EngineTooNew { file: header.engine_semver, engine: self.engine_semver() },
            ),
            r is Ok <==> header_check_spec(
                header.magic,
                header.engine_semver,
                header.schema_name@,
                self.max_major(),
            ) is None,
    {
        if header.magic != SAVE_MAGIC {
            return Err(SaveError::BadMagic(header.magic));
        }
        if !crate::text::str_eq(header.schema_name.as_str(), SCHEMA_NAME) {
            return Err(
                SaveError::SchemaMismatch {
                    file: header.schema_name.clone(),
                    engine: SCHEMA_NAME.to_string(),
                },
            );
        }
        if header.engine_semver.0 > self.max_major {
            return Err(
                SaveError::EngineTooNew { file: header.engine_semver, engine: self.engine_semver },
            );
        }
        Ok(())
    }
}

impl Default for Loader {
    fn default() -> (r: Loader)
        ensures
            r.engine_semver() == ENGINE_SEMVER,
            r.max_major() == ENGINE_SEMVER.0,
    {
        Loader::new()
    }
}

// ── Migrations ───────────────────────────────────────────────────────────

/// Default JSON value for a body field missing from an older save.
#[derive(Clone, Copy, Debug, PartialEq, Eq)]
pub enum DefaultValue {
    /// `[]`.
    EmptyList,
    /// `{"master": 1.0, "music": 1.0, "sfx": 1.0, "voice": 1.0}`.
    UnitVolumes,
}

/// A body field to add, with its default, before decoding a migrated body.
#[derive(Clone, Debug, PartialEq, Eq)]
pub struct BodyDefault {
    /// Field name.
    pub key: String,
    /// Value to insert.
    pub value: DefaultValue,
}

/// Body fields that must exist after migration, in insertion order.
pub open spec fn required_fields() -> Seq<(Seq<char>, DefaultValue)> {
    seq![
        ("tags"@, DefaultValue::EmptyList),
        ("vars"@, DefaultValue::EmptyList),
        ("inventory"@, DefaultValue::EmptyList),
        ("visited_rooms"@, DefaultValue::EmptyList),
        ("dialog_history"@, DefaultValue::EmptyList),
        ("bus_volumes"@, DefaultValue::UnitVolumes),
    ]
}

/// The fields of `req` whose key is not among `present`, in order.
pub open spec fn missing_fields(req: Seq<(Seq<char>, DefaultValue)>, present: Seq<Seq<char>>) -> Seq<
    (Seq<char>, DefaultValue),
>
    decreases req.len(),
{
    if req.len() == 0 {
        Seq::empty()
    } else {
        let rest = missing_fields(req.drop_last(), present);
        if present.contains(req.last().0) {
            rest
        } else {
            rest.push(req.last())
        }
    }
}

/// View of a list of body defaults.
pub open spec fn defaults_view(v: Seq<BodyDefault>) -> Seq<(Seq<char>, DefaultValue)> {
    v.map_values(|d: BodyDefault| (d.key@, d.value))
}

/// The reason recorded when the tags subsystem predates version 1.
pub open spec fn tags_reason() -> Seq<char> {
    "tags version 0 is unsupported"@
}

/// Per-subsystem migration of an older body. The tags subsystem must be
/// at version 1 or later; otherwise the migration fails. When the body is a
/// JSON object (`body_keys` lists its keys), the result lists the required
/// fields it lacks, with the default the host inserts for each.
pub fn migrate(header: &SaveHeaderInfo, body_keys: Option<&Vec<String>>) -> (r: Result<
    Vec<BodyDefault>,
    SaveError,
>)
    ensures
        ({
            let tags_v = version_in(version_entries(header.custom_versions), guid_tags_bytes());
            &&& tags_v < 1 ==> (r matches Err(
                SaveError::MigrationFailed { subsystem, from, to, reason },
            ) && subsystem@ == hex_bytes(guid_tags_bytes()) && from == tags_v && to == 1
                && reason@ == tags_reason())
            &&& tags_v >= 1 ==> (r matches Ok(d) && defaults_view(d@) == match body_keys {
                Some(keys) => missing_fields(required_fields(), crate::text::strs_view(keys@)),
                None => Seq::empty(),
            })
        }),
{
    let tags = guid_tags();
    let tags_v = header.custom_version_of(tags);
    if tags_v < 1 {
        return Err(
            SaveError::MigrationFailed {
                subsystem: tags.hex(),
                from: tags_v,
                to: 1,
                reason: "tags version 0 is unsupported".to_string(),
            },
        );
    }
    let mut out: Vec<BodyDefault> = Vec::new();
    match body_keys {
        None => {
            assert(defaults_view(out@) =~= Seq::empty());
        },
        Some(keys) => {
            let req: [(&str, DefaultValue); 6] = [
                ("tags", DefaultValue::EmptyList),
                ("vars", DefaultValue::EmptyList),
                ("inventory", DefaultValue::EmptyList),
                ("visited_rooms", DefaultValue::EmptyList),
                ("dialog_history", DefaultValue::EmptyList),
                ("bus_volumes", DefaultValue::UnitVolumes),
            ];
            let ghost present = crate::text::strs_view(keys@);
            let ghost req_view = Seq::new(6, |k: int| (req@[k].0@, req@[k].1));
            proof {
                reveal_strlit("tags");
                reveal_strlit("vars");
                reveal_strlit("inventory");
                reveal_strlit("visited_rooms");
                reveal_strlit("dialog_history");
                reveal_strlit("bus_volumes");
                assert(req_view =~= required_fields());
            }
            let mut i: usize = 0;
            while i < 6
                invariant
                    i <= 6,
                    req_view.len() == 6,
                    forall|k: int| 0 <= k < 6 ==> req_view[k] == (#[trigger] req@[k].0@, req@[k].1),
                    present == crate::text::strs_view(keys@),
                    defaults_view(out@) == missing_fields(req_view.take(i as int), present),
                decreases 6 - i,
            {
                let (key, value) = req[i];
                let ghost prev = out@;
                assert(req_view.take(i + 1).drop_last() =~= req_view.take(i as int));
                if !crate::text::contains_str(keys, key) {
                    out.push(BodyDefault { key: key.to_string(), value });
                    assert(defaults_view(out@) =~= defaults_view(prev).push((key@, value)));
                }
                i = i + 1;
            }
            assert(req_view.take(6) =~= req_view);
        },
    }
    Ok(out)
}

// ── Saver ────────────────────────────────────────────────────────────────

/// The stamp written into new save headers.
pub struct Saver {
    engine_semver: (u16, u16, u16),
    content_version: u32,
    custom_versions: VersionList,
}

impl Saver {
    /// Saver with current engine defaults: [`ENGINE_SEMVER`], content
    /// version 1 and the current custom versions.
    pub fn new() -> (r: Saver)
        ensures
            r.engine_semver_spec() == ENGINE_SEMVER,
            r.content_version_spec() == 1,
            r.versions_spec() == current_versions_spec(),
    {
        Saver {
            engine_semver: ENGINE_SEMVER,
            content_version: 1,
            custom_versions: current_custom_versions(),
        }
    }

    /// Engine semver this saver stamps.
    pub closed spec fn engine_semver_spec(self) -> (u16, u16, u16) {
        self.engine_semver
    }

    /// Content pack version this saver stamps.
    pub closed spec fn content_version_spec(self) -> u32 {
        self.content_version
    }

    /// Custom versions this saver stamps.
    pub closed spec fn versions_spec(self) -> Seq<(Seq<u8>, u32)> {
        version_entries(self.custom_versions)
    }

    /// Override content pack version.
    pub fn with_content_version(self, v: u32) -> (r: Saver)
        ensures
            r.content_version_spec() == v,
            r.engine_semver_spec() == self.engine_semver_spec(),
            r.versions_spec() == self.versions_spec(),
    {
        Saver { content_version: v, ..self }
    }

    /// Override engine semver stamp.
    pub fn with_engine_semver(self, v: (u16, u16, u16)) -> (r: Saver)
        ensures
            r.engine_semver_spec() == v,
            r.content_version_spec() == self.content_version_spec(),
            r.versions_spec() == self.versions_spec(),
    {
        Saver { engine_semver: v, ..self }
    }

    /// Engine semver to stamp.
    pub fn engine_semver(&self) -> (r: (u16, u16, u16))
        ensures
            r == self.engine_semver_spec(),
    {
        self.engine_semver
    }

    /// Content version to stamp.
    pub fn content_version(&self) -> (r: u32)
        ensures
            r == self.content_version_spec(),
    {
        self.content_version
    }

    /// Custom versions to stamp.
    pub fn custom_versions(&self) -> (r: VersionList)
        ensures
            version_entries(r) == self.versions_spec(),
    {
        self.custom_versions.duplicate()
    }

    /// The header fields this saver stamps on a save: [`SAVE_MAGIC`],
    /// its engine semver, [`SCHEMA_NAME`] and its custom versions.
    pub fn header_info(&self) -> (r: SaveHeaderInfo)
        ensures
            r.magic == SAVE_MAGIC,
            r.engine_semver == self.engine_semver_spec(),
            r.schema_name@ == SCHEMA_NAME@,
            version_entries(r.custom_versions) == self.versions_spec(),
    {
        SaveHeaderInfo {
            magic: SAVE_MAGIC,
            engine_semver: self.engine_semver,
            schema_name: SCHEMA_NAME.to_string(),
            custom_versions: self.custom_versions.duplicate(),
        }
    }

    /// Encode a snapshot whose header and body the host has already
    /// serialised: frame them with an empty thumbnail.
    pub fn save(&self, header: &[u8], body: &[u8]) -> (r: Vec<u8>)
        requires
            header@.len() <= u32::MAX,
            body@.len() <= u32::MAX,
        ensures
            r@ == container_bytes(header@, body@, Seq::empty()),
            container_spec(r@) == Ok::<Sections, SaveError>((header@, body@, None)),
    {
        let empty: Vec<u8> = Vec::new();
        let r = frame_container(header, body, empty.as_slice());
        assert(empty@ =~= Seq::<u8>::empty());
        r
    }

    /// Encode with an optional thumbnail.
    pub fn save_with_thumb(&self, header: &[u8], body: &[u8], thumb_png: Option<&[u8]>) -> (r: Vec<u8>)
        requires
            header@.len() <= u32::MAX,
            body@.len() <= u32::MAX,
            thumb_png matches Some(t) ==> t@.len() <= u32::MAX,
        ensures
            r@ == container_bytes(header@, body@, match thumb_png {
                Some(t) => t@,
                None => Seq::empty(),
            }),
            container_spec(r@) == Ok::<Sections, SaveError>(
                (header@, body@, match thumb_png {
                    Some(t) => if t@.len() > 0 {
                        Some(t@)
                    } else {
                        None
                    },
                    None => None,
                }),
            ),
    {
        match thumb_png {
            Some(t) => frame_container(header, body, t),
            None => self.save(header, body),
        }
    }
}

impl Default for Saver {
    fn default() -> (r: Saver)
        ensures
            r.engine_semver_spec() == ENGINE_SEMVER,
            r.content_version_spec() == 1,
            r.versions_spec() == current_versions_spec(),
    {
        Saver::new()
    }
}

impl Clone for Saver {
    fn clone(&self) -> (r: Saver)
        ensures
            r.engine_semver_spec() == self.engine_semver_spec(),
            r.content_version_spec() == self.content_version_spec(),
            r.versions_spec() == self.versions_spec(),
    {
        Saver {
            engine_semver: self.engine_semver,
            content_version: self.content_version,
            custom_versions: self.custom_versions.duplicate(),
        }
    }
}

// ── Slot paths ───────────────────────────────────────────────────────────

/// Default saves directory under the given root (`root/saves`).
pub fn saves_dir(root: &str) -> (r: String)
    ensures
        r@ == crate::text::std_path_join(root@, "saves"@),
{
    crate::text::path_join(root, "saves")
}

/// Path for a named slot: `root/saves/<name>.bin`.
pub fn slot_path(root: &str, name: &str) -> (r: String)
    ensures
        r@ == crate::text::std_path_join(crate::text::std_path_join(root@, "saves"@), name@ + ".bin"@),
{
    let dir = saves_dir(root);
    let file = crate::text::concat_str(name, ".bin");
    crate::text::path_join(dir.as_str(), file.as_str())
}

} // verus!
