//! NovaFS: the native filesystem. The superblock, the inode table, directory listings and the
//! journal are kept as typed records beside the disk image, not serialized into the metadata
//! sectors 1 to 15 (superblock, inode table, journal): those sectors of the image are never
//! written, so reading them gives whatever the image held (zeros on a fresh disk). File
//! contents live in the data sectors from 16 on. The byte budgets of the on-disk encoding (a
//! 127-byte inode slot, a 512-byte directory block) are still enforced with the exact length
//! of that encoding.
use vstd::prelude::*;
use crate::drivers::disk::{DiskDevice, DISK_SECTORS, DISK_SIZE, lemma_sector_bounds};
use crate::text::{decimal, str_to_chars, chars_to_string, push_str, push_decimal};

verus! {

/// The superblock magic number, "NOVA".
pub const MAGIC: u32 = 0x4E4F5641;
/// Sector of the superblock.
pub const SUPERBLOCK_SECTOR: usize = 1;
/// First sector of the inode table.
pub const INODE_START_SECTOR: usize = 2;
/// Sectors of the inode table.
pub const INODE_SECTORS: usize = 9;
/// First sector of the journal.
pub const JOURNAL_START_SECTOR: usize = 11;
/// Sectors (and so slots) of the journal.
pub const JOURNAL_SECTORS: usize = 5;
/// First data sector.
pub const DATA_START_SECTOR: usize = 16;
/// Inode slots: four 128-byte slots in each inode-table sector.
pub const INODE_SLOTS: usize = 36;
/// Largest encoded inode that fits a slot (one byte of the slot holds the length).
pub const INODE_SLOT_PAYLOAD: usize = 127;
/// Largest encoded directory listing that fits its block.
pub const DIR_BLOCK_PAYLOAD: usize = 512;
/// Direct block pointers per inode.
pub const DIRECT_BLOCKS: usize = 6;
/// Timestamp stamped on snapshots.
pub const SNAPSHOT_TIMESTAMP: u64 = 12345678;

/// The filesystem superblock.
#[derive(Debug, Clone, Copy, PartialEq, Eq, Structural)]
pub struct Superblock {
    pub magic: u32,
    pub total_blocks: u32,
    pub free_blocks: u32,
    pub inode_count: u32,
    pub journal_ptr: u32,
}

/// A file or directory inode.
#[derive(Debug, Clone, Copy)]
pub struct Inode {
    pub id: u32,
    pub is_directory: bool,
    pub size: u32,
    pub owner_uid: u32,
    pub owner_gid: u32,
    pub permissions: u16,
    pub direct_blocks: [u32; 6],
}

/// A name in a directory and the inode it refers to.
#[derive(Debug)]
pub struct DirectoryEntry {
    pub name: String,
    pub inode_id: u32,
}

/// A journal record of one write transaction.
#[derive(Debug)]
pub struct JournalEntry {
    pub transaction_id: u32,
    pub inode_id: u32,
    pub operation: String,
    pub data_offset: u32,
    pub committed: bool,
}

/// What lives in the metadata sectors: superblock, inode slots, the listing kept in each
/// directory's first block, and the journal slots.
pub struct NovaMeta {
    pub superblock: Superblock,
    pub inodes: Vec<Option<Inode>>,
    pub dirs: Vec<Vec<DirectoryEntry>>,
    pub journal: Vec<Option<JournalEntry>>,
}

/// A point-in-time copy of the whole volume.
pub struct Snapshot {
    pub id: u32,
    pub timestamp: u64,
    pub root_inode_copy: Inode,
    pub disk_backup: Vec<u8>,
    pub meta_backup: NovaMeta,
}

/// The mounted filesystem: on-disk metadata, per-user quotas and usage, and snapshots.
pub struct NovaFs {
    pub meta: NovaMeta,
    pub quotas: Vec<(u32, u32)>,
    pub usages: Vec<(u32, u32)>,
    pub snapshots: Vec<Snapshot>,
}

/// A directory entry as `(name, inode)`.
pub type EntryView = (Seq<char>, u32);

/// A journal record as `(transaction, inode, operation, offset, committed)`.
pub type JournalView = (u32, u32, Seq<char>, u32, bool);

/// The view of a directory entry.
pub open spec fn entry_view(e: DirectoryEntry) -> EntryView {
    (e.name@, e.inode_id)
}

/// The views of a directory listing.
pub open spec fn entries_view(s: Seq<DirectoryEntry>) -> Seq<EntryView> {
    s.map_values(|e: DirectoryEntry| entry_view(e))
}

/// The views of every directory listing.
pub open spec fn dirs_view(s: Seq<Vec<DirectoryEntry>>) -> Seq<Seq<EntryView>> {
    s.map_values(|v: Vec<DirectoryEntry>| entries_view(v@))
}

/// The view of a journal slot.
pub open spec fn journal_slot_view(j: Option<JournalEntry>) -> Option<JournalView> {
    match j {
        Some(e) => Some((e.transaction_id, e.inode_id, e.operation@, e.data_offset, e.committed)),
        None => None,
    }
}

/// The views of the journal slots.
pub open spec fn journal_view(s: Seq<Option<JournalEntry>>) -> Seq<Option<JournalView>> {
    s.map_values(|j: Option<JournalEntry>| journal_slot_view(j))
}

/// Every block pointer of `n` names a sector of the disk and its size fits six blocks.
pub open spec fn inode_ok(n: Inode) -> bool {
    &&& forall|k: int| 0 <= k < DIRECT_BLOCKS ==> #[trigger] n.direct_blocks@[k] < DISK_SECTORS
    &&& n.size <= MAX_FILE_BYTES
}

/// The metadata as plain values.
pub struct MetaView {
    pub superblock: Superblock,
    pub inodes: Seq<Option<Inode>>,
    pub dirs: Seq<Seq<EntryView>>,
    pub journal: Seq<Option<JournalView>>,
}

impl NovaMeta {
    /// One inode slot per id, one listing per slot, one journal slot per journal sector.
    pub open spec fn wf(&self) -> bool {
        &&& self.inodes@.len() == INODE_SLOTS
        &&& self.dirs@.len() == INODE_SLOTS
        &&& self.journal@.len() == JOURNAL_SECTORS
        &&& self.superblock.inode_count <= INODE_SLOTS
        &&& forall|i: int| 0 <= i < INODE_SLOTS ==> match #[trigger] self.inodes@[i] {
            Some(n) => inode_ok(n),
            None => true,
        }
    }

    /// The metadata as plain values.
    pub open spec fn view(&self) -> MetaView {
        MetaView {
            superblock: self.superblock,
            inodes: self.inodes@,
            dirs: dirs_view(self.dirs@),
            journal: journal_view(self.journal@),
        }
    }
}

impl NovaFs {
    /// The metadata is well formed, each user has at most one quota and one usage record,
    /// and snapshot ids are distinct with well-formed backups of the full disk size.
    pub open spec fn wf(&self) -> bool {
        &&& self.meta.wf()
        &&& forall|i: int, j: int| 0 <= i < j < self.usages@.len() ==> self.usages@[i].0 != self.usages@[j].0
        &&& forall|i: int, j: int| 0 <= i < j < self.snapshots@.len() ==> self.snapshots@[i].id != self.snapshots@[j].id
        &&& forall|i: int| 0 <= i < self.snapshots@.len() ==> (#[trigger] self.snapshots@[i]).meta_backup.wf()
            && self.snapshots@[i].disk_backup@.len() == DISK_SIZE
    }
}

// ---------------------------------------------------------------- encoded lengths

/// Decimal digits of `n`.
pub open spec fn digits(n: nat) -> nat
    decreases n,
{
    if n < 10 { 1 } else { 1 + digits(n / 10) }
}

/// Ten to the power `k`.
pub open spec fn pow10(k: nat) -> nat
    decreases k,
{
    if k == 0 { 1 } else { 10 * pow10((k - 1) as nat) }
}

/// A number below ten to the `k` has at most `k` digits.
proof fn lemma_digits_le(n: nat, k: nat)
    requires
        1 <= k,
        n < pow10(k),
    ensures
        digits(n) <= k,
    decreases n,
{
    reveal_with_fuel(pow10, 2);
    if n >= 10 {
        let p = pow10((k - 1) as nat);
        assert(k >= 2);
        assert(n / 10 < p) by (nonlinear_arith)
            requires n < 10 * p, n >= 10;
        lemma_digits_le(n / 10, (k - 1) as nat);
    }
}

/// A `u64` has at most 20 decimal digits.
proof fn lemma_u64_digits(n: nat)
    requires
        n <= u64::MAX,
    ensures
        digits(n) <= 20,
{
    reveal_with_fuel(pow10, 21);
    assert(pow10(20) == 100000000000000000000nat);
    lemma_digits_le(n, 20);
}

/// Decimal digits of `n`.
pub fn digit_count(n: u64) -> (r: usize)
    ensures
        r == digits(n as nat),
        r <= 20,
    decreases n,
{
    proof { lemma_u64_digits(n as nat); }
    if n < 10 {
        1
    } else {
        1 + digit_count(n / 10)
    }
}

/// Bytes of the encoded inode: the fixed field names and punctuation, then each number in decimal.
pub open spec fn inode_encoded_len(n: Inode) -> nat {
    96 + digits(n.id as nat) + (if n.is_directory { 4nat } else { 5nat }) + digits(n.size as nat)
        + digits(n.owner_uid as nat) + digits(n.owner_gid as nat) + digits(n.permissions as nat)
        + digits(n.direct_blocks@[0] as nat) + digits(n.direct_blocks@[1] as nat) + digits(n.direct_blocks@[2] as nat)
        + digits(n.direct_blocks@[3] as nat) + digits(n.direct_blocks@[4] as nat) + digits(n.direct_blocks@[5] as nat)
}

/// Bytes of the encoded inode.
pub fn inode_encoded_size(n: &Inode) -> (r: usize)
    ensures
        r == inode_encoded_len(*n),
{
    let b = n.direct_blocks;
    let flag: usize = if n.is_directory { 4 } else { 5 };
    96 + digit_count(n.id as u64) + flag + digit_count(n.size as u64) + digit_count(n.owner_uid as u64)
        + digit_count(n.owner_gid as u64) + digit_count(n.permissions as u64) + digit_count(b[0] as u64)
        + digit_count(b[1] as u64) + digit_count(b[2] as u64) + digit_count(b[3] as u64)
        + digit_count(b[4] as u64) + digit_count(b[5] as u64)
}

/// Bytes `c` takes inside an encoded string: quotes and backslashes and the common control
/// characters are escaped in two bytes, other control characters in six, anything else in
/// its UTF-8 length.
pub open spec fn encoded_char_len(c: char) -> nat {
    if c == '"' || c == '\\' || c == '\x08' || c == '\x0C' || c == '\n' || c == '\r' || c == '\t' {
        2
    } else if (c as u32) < 0x20 {
        6
    } else if (c as u32) < 0x80 {
        1
    } else if (c as u32) < 0x800 {
        2
    } else if (c as u32) < 0x10000 {
        3
    } else {
        4
    }
}

/// Bytes of the characters `s` inside an encoded string.
pub open spec fn encoded_str_len(s: Seq<char>) -> nat
    decreases s.len(),
{
    if s.len() == 0 { 0 } else { encoded_str_len(s.drop_last()) + encoded_char_len(s.last()) }
}

/// Bytes of an encoded directory entry.
pub open spec fn entry_encoded_len(e: EntryView) -> nat {
    23 + encoded_str_len(e.0) + digits(e.1 as nat)
}

/// Bytes of the entries of a listing, without brackets and separators.
pub open spec fn entries_encoded_sum(s: Seq<EntryView>) -> nat
    decreases s.len(),
{
    if s.len() == 0 { 0 } else { entries_encoded_sum(s.drop_last()) + entry_encoded_len(s.last()) }
}

/// Bytes of an encoded directory listing: brackets, entries and the commas between them.
pub open spec fn listing_encoded_len(s: Seq<EntryView>) -> nat {
    if s.len() == 0 { 2 } else { 2 + entries_encoded_sum(s) + (s.len() - 1) as nat }
}

/// Bytes `c` takes inside an encoded string.
fn encoded_char_size(c: char) -> (r: usize)
    ensures
        r == encoded_char_len(c),
        r <= 6,
{
    if c == '"' || c == '\\' || c == '\x08' || c == '\x0C' || c == '\n' || c == '\r' || c == '\t' {
        2
    } else if (c as u32) < 0x20 {
        6
    } else if (c as u32) < 0x80 {
        1
    } else if (c as u32) < 0x800 {
        2
    } else if (c as u32) < 0x10000 {
        3
    } else {
        4
    }
}

/// Bytes of the characters of `s` inside an encoded string, when below `cap`; `None` above it.
fn encoded_str_size(s: &str, cap: usize) -> (r: Option<usize>)
    requires
        cap < usize::MAX - 8,
    ensures
        r matches Some(n) ==> n == encoded_str_len(s@) && n <= cap,
        r is None ==> encoded_str_len(s@) > cap,
{
    let cs = str_to_chars(s);
    let mut total: usize = 0;
    let mut i: usize = 0;
    while i < cs.len()
        invariant
            i <= cs@.len(),
            cs@ == s@,
            total == encoded_str_len(cs@.subrange(0, i as int)),
            total <= cap,
            cap < usize::MAX - 8,
        decreases cs@.len() - i,
    {
        assert(cs@.subrange(0, i + 1).drop_last() =~= cs@.subrange(0, i as int));
        total = total + encoded_char_size(cs[i]);
        i = i + 1;
        if total > cap {
            proof { lemma_encoded_str_monotone(cs@, i as int); }
            return None;
        }
    }
    assert(cs@.subrange(0, i as int) =~= s@);
    Some(total)
}

/// The encoded length of a prefix never exceeds that of the whole string.
proof fn lemma_encoded_str_monotone(s: Seq<char>, i: int)
    requires
        0 <= i <= s.len(),
    ensures
        encoded_str_len(s.subrange(0, i)) <= encoded_str_len(s),
    decreases s.len() - i,
{
    if i < s.len() {
        lemma_encoded_str_monotone(s, i + 1);
        assert(s.subrange(0, i + 1).drop_last() =~= s.subrange(0, i));
    } else {
        assert(s.subrange(0, i) =~= s);
    }
}

/// Bytes of the encoded listing `entries`, when at most `cap`; `None` above it.
fn listing_encoded_size(entries: &Vec<DirectoryEntry>, cap: usize) -> (r: Option<usize>)
    requires
        cap <= 4096,
    ensures
        r matches Some(n) ==> n == listing_encoded_len(entries_view(entries@)) && n <= cap,
        r is None ==> listing_encoded_len(entries_view(entries@)) > cap,
{
    let ghost ev = entries_view(entries@);
    let mut sum: usize = 0;
    let mut i: usize = 0;
    while i < entries.len()
        invariant
            i <= entries@.len(),
            ev == entries_view(entries@),
            ev.len() == entries@.len(),
            sum == entries_encoded_sum(ev.subrange(0, i as int)),
            i == 0 ==> sum == 0,
            i > 0 ==> 2 + sum + (i - 1) <= cap,
            cap <= 4096,
        decreases entries@.len() - i,
    {
        let e = &entries[i];
        let ns = encoded_str_size(e.name.as_str(), 8192);
        assert(ev.subrange(0, i + 1).drop_last() =~= ev.subrange(0, i as int));
        assert(ev[i as int] == entry_view(entries@[i as int]));
        match ns {
            None => {
                proof { lemma_listing_prefix(ev, i as int + 1); }
                return None;
            },
            Some(n) => {
                let d = digit_count(e.inode_id as u64);
                let next = sum + 23 + n + d;
                if 2 + next + i > cap {
                    proof { lemma_listing_prefix(ev, i as int + 1); }
                    return None;
                }
                sum = next;
            },
        }
        i = i + 1;
    }
    assert(ev.subrange(0, i as int) =~= ev);
    if i == 0 {
        if 2 > cap { return None; }
        Some(2)
    } else {
        Some(2 + sum + i - 1)
    }
}

/// The encoded listing of a prefix is no longer than that of the whole listing.
proof fn lemma_listing_prefix(s: Seq<EntryView>, i: int)
    requires
        1 <= i <= s.len(),
    ensures
        2 + entries_encoded_sum(s.subrange(0, i)) + (i - 1) <= listing_encoded_len(s),
    decreases s.len() - i,
{
    if i < s.len() {
        lemma_listing_prefix(s, i + 1);
        assert(s.subrange(0, i + 1).drop_last() =~= s.subrange(0, i));
    } else {
        assert(s.subrange(0, i) =~= s);
    }
}


// ---------------------------------------------------------------- inodes

/// Every block pointer of `n` names a sector of the disk and its size fits six blocks.
pub open spec fn inode_blocks_ok(n: Inode) -> bool {
    inode_ok(n)
}

/// What reading inode `id` gives: the inode, or why there is none.
pub open spec fn inode_lookup(m: MetaView, id: u32) -> Result<Inode, Seq<char>> {
    if id >= INODE_SLOTS {
        Err("Inode ID out of limits"@)
    } else {
        match m.inodes[id as int] {
            Some(n) => Ok(n),
            None => Err("Inode "@ + decimal(id as nat) + " does not exist"@),
        }
    }
}

/// The metadata with inode slot `id` holding `n`.
pub open spec fn with_inode(m: MetaView, id: u32, n: Inode) -> MetaView {
    MetaView { inodes: m.inodes.update(id as int, Some(n)), ..m }
}

/// The metadata with another superblock.
pub open spec fn with_superblock(m: MetaView, sb: Superblock) -> MetaView {
    MetaView { superblock: sb, ..m }
}

/// Reads inode `id` from its slot.
pub fn read_inode_disk(m: &NovaMeta, id: u32) -> (r: Result<Inode, String>)
    requires
        m.wf(),
    ensures
        match inode_lookup(m.view(), id) {
            Ok(n) => r matches Ok(x) && x == n && inode_blocks_ok(x),
            Err(e) => r matches Err(x) && x@ == e,
        },
{
    if id as usize >= INODE_SLOTS {
        return Err(String::from_str("Inode ID out of limits"));
    }
    match m.inodes[id as usize] {
        Some(n) => {
            assert(m.inodes@[id as int] == Some(n));
            Ok(n)
        },
        None => {
            let mut msg: Vec<char> = Vec::new();
            push_str(&mut msg, "Inode ");
            push_decimal(&mut msg, id as u64);
            push_str(&mut msg, " does not exist");
            Err(chars_to_string(msg.as_slice()))
        },
    }
}

/// Writes `inode` into slot `id`; refused when the id is past the table or the encoded inode
/// does not fit its slot.
pub fn write_inode_disk(m: &mut NovaMeta, id: u32, inode: &Inode) -> (r: Result<(), String>)
    requires
        old(m).wf(),
        inode_blocks_ok(*inode),
    ensures
        final(m).wf(),
        id >= INODE_SLOTS ==> (r matches Err(e) && e@ == "Inode ID out of limits"@) && final(m).view() == old(m).view(),
        id < INODE_SLOTS && inode_encoded_len(*inode) > INODE_SLOT_PAYLOAD ==> (r matches Err(e)
            && e@ == "Inode too complex to serialize in block slot"@) && final(m).view() == old(m).view(),
        id < INODE_SLOTS && inode_encoded_len(*inode) <= INODE_SLOT_PAYLOAD ==> r is Ok
            && final(m).view() == with_inode(old(m).view(), id, *inode),
{
    if id as usize >= INODE_SLOTS {
        return Err(String::from_str("Inode ID out of limits"));
    }
    if inode_encoded_size(inode) > INODE_SLOT_PAYLOAD {
        return Err(String::from_str("Inode too complex to serialize in block slot"));
    }
    m.inodes.set(id as usize, Some(*inode));
    proof {
        assert forall|i: int| 0 <= i < INODE_SLOTS implies match #[trigger] m.inodes@[i] {
            Some(n) => inode_ok(n),
            None => true,
        } by {
            if i != id as int {
                assert(m.inodes@[i] == old(m).inodes@[i]);
            }
        }
        assert(m.view().inodes =~= old(m).view().inodes.update(id as int, Some(*inode)));
    }
    Ok(())
}

/// `n` is the empty inode `allocate_inode` creates with id `id`.
pub open spec fn is_fresh_inode(n: Inode, id: u32, is_dir: bool, uid: u32, gid: u32, permissions: u16) -> bool {
    &&& n.id == id
    &&& n.is_directory == is_dir
    &&& n.size == 0
    &&& n.owner_uid == uid
    &&& n.owner_gid == gid
    &&& n.permissions == permissions
    &&& n.direct_blocks@ == seq![0u32, 0, 0, 0, 0, 0]
}

/// Bytes of the encoded empty inode.
pub open spec fn fresh_encoded_len(id: u32, is_dir: bool, uid: u32, gid: u32, permissions: u16) -> nat {
    96 + digits(id as nat) + (if is_dir { 4nat } else { 5nat }) + 1 + digits(uid as nat) + digits(gid as nat)
        + digits(permissions as nat) + 6
}

/// Creates an empty inode with the next id.
pub fn allocate_inode(m: &mut NovaMeta, is_dir: bool, uid: u32, gid: u32, permissions: u16) -> (r: Result<u32, String>)
    requires
        old(m).wf(),
        old(m).superblock.inode_count <= INODE_SLOTS,
    ensures
        final(m).wf(),
        final(m).superblock.inode_count <= INODE_SLOTS,
        ({
            let id = old(m).superblock.inode_count;
            let len = fresh_encoded_len(id, is_dir, uid, gid, permissions);
            &&& id >= INODE_SLOTS ==> (r matches Err(e) && e@ == "Inode ID out of limits"@) && final(m).view() == old(m).view()
            &&& id < INODE_SLOTS && len > INODE_SLOT_PAYLOAD ==> (r matches Err(e)
                && e@ == "Inode too complex to serialize in block slot"@) && final(m).view() == old(m).view()
            &&& id < INODE_SLOTS && len <= INODE_SLOT_PAYLOAD ==> r == Ok::<u32, String>(id)
                && (final(m).view().inodes[id as int] matches Some(n) && is_fresh_inode(n, id, is_dir, uid, gid, permissions)
                && final(m).view() == with_superblock(with_inode(old(m).view(), id, n),
                    Superblock { inode_count: (id + 1) as u32, ..old(m).superblock }))
        }),
{
    let new_id = m.superblock.inode_count;
    let inode = Inode {
        id: new_id,
        is_directory: is_dir,
        size: 0,
        owner_uid: uid,
        owner_gid: gid,
        permissions,
        direct_blocks: [0, 0, 0, 0, 0, 0],
    };
    assert(inode.direct_blocks@ =~= seq![0u32, 0, 0, 0, 0, 0]);
    assert(inode_encoded_len(inode) == fresh_encoded_len(new_id, is_dir, uid, gid, permissions));
    write_inode_disk(m, new_id, &inode)?;
    m.superblock.inode_count = new_id + 1;
    Ok(new_id)
}

// ---------------------------------------------------------------- data blocks

/// Block `b` is referenced by some inode within the allocated range of ids.
pub open spec fn block_used(m: MetaView, b: u32) -> bool {
    exists|id: int| 0 <= id < m.superblock.inode_count && id < INODE_SLOTS && #[trigger] block_used_by(m, id, b)
}

/// Slot `id` holds an inode that points at the nonzero block `b`.
pub open spec fn block_used_by(m: MetaView, id: int, b: u32) -> bool {
    b != 0 && match m.inodes[id] {
        Some(n) => n.direct_blocks@.contains(b),
        None => false,
    }
}

/// The data block `allocate_data_block` picks: the lowest one no inode points at.
pub open spec fn is_first_free_block(m: MetaView, b: u32) -> bool {
    &&& DATA_START_SECTOR <= b < DISK_SECTORS
    &&& !block_used(m, b)
    &&& forall|c: u32| DATA_START_SECTOR <= c < b ==> block_used(m, c)
}

/// Every data block is pointed at by some inode.
pub open spec fn disk_full(m: MetaView) -> bool {
    forall|c: u32| DATA_START_SECTOR <= c < DISK_SECTORS ==> block_used(m, c)
}

/// Some of the first `k` pointers in `blocks` is `b`.
pub open spec fn points_within(blocks: Seq<u32>, k: int, b: u32) -> bool {
    exists|w: int| 0 <= w < k && blocks[w] == b
}

/// Marks, for each sector, whether some inode among the first `inode_count` points at it.
fn used_blocks(m: &NovaMeta) -> (used: Vec<bool>)
    requires
        m.wf(),
    ensures
        used@.len() == DISK_SECTORS,
        forall|b: u32| b < DISK_SECTORS ==> used@[b as int] == block_used(m.view(), b),
{
    let mut used = vec![false; DISK_SECTORS];
    let limit: usize = if (m.superblock.inode_count as usize) < INODE_SLOTS { m.superblock.inode_count as usize } else { INODE_SLOTS };
    let ghost mv = m.view();
    let mut id: usize = 0;
    while id < limit
        invariant
            m.wf(),
            mv == m.view(),
            id <= limit,
            limit <= INODE_SLOTS,
            limit as int == if mv.superblock.inode_count < INODE_SLOTS { mv.superblock.inode_count as int } else { INODE_SLOTS as int },
            used@.len() == DISK_SECTORS,
            forall|b: u32| b < DISK_SECTORS ==> used@[b as int] == (exists|j: int| 0 <= j < id && #[trigger] block_used_by(mv, j, b)),
        decreases limit - id,
    {
        let ghost before = used@;
        match m.inodes[id] {
            Some(n) => {
                assert(m.inodes@[id as int] == Some(n));
                let mut k: usize = 0;
                while k < DIRECT_BLOCKS
                    invariant
                        k <= DIRECT_BLOCKS,
                        used@.len() == DISK_SECTORS,
                        before.len() == DISK_SECTORS,
                        inode_blocks_ok(n),
                        forall|b: u32| b < DISK_SECTORS ==> #[trigger] used@[b as int] == (before[b as int]
                            || (b != 0 && points_within(n.direct_blocks@, k as int, b))),
                    decreases DIRECT_BLOCKS - k,
                {
                    let blk = n.direct_blocks[k];
                    assert(blk == n.direct_blocks@[k as int]);
                    let ghost u0 = used@;
                    let ghost k0 = k as int;
                    if blk != 0 {
                        used.set(blk as usize, true);
                    }
                    k = k + 1;
                    proof {
                        assert forall|b: u32| b < DISK_SECTORS implies used@[b as int] == (before[b as int]
                            || (b != 0 && points_within(n.direct_blocks@, k as int, b))) by {
                            if b == blk && b != 0 {
                                assert(n.direct_blocks@[k - 1] == b);
                                assert(points_within(n.direct_blocks@, k as int, b));
                                assert(used@[b as int]);
                            } else {
                                assert(used@[b as int] == u0[b as int]);
                                assert(u0[b as int] == (before[b as int] || (b != 0 && points_within(n.direct_blocks@, k0, b))));
                                if points_within(n.direct_blocks@, k0, b) {
                                    let w = choose|w: int| 0 <= w < k0 && n.direct_blocks@[w] == b;
                                    assert(0 <= w < k && n.direct_blocks@[w] == b);
                                }
                                if points_within(n.direct_blocks@, k as int, b) {
                                    let w = choose|w: int| 0 <= w < k && n.direct_blocks@[w] == b;
                                    if w < k0 {
                                        assert(points_within(n.direct_blocks@, k0, b));
                                    } else {
                                        assert(b == blk);
                                    }
                                }
                            }
                        }
                    }
                }
                proof {
                    assert forall|b: u32| b < DISK_SECTORS implies used@[b as int] == (exists|j: int| 0 <= j < id + 1 && #[trigger] block_used_by(mv, j, b)) by {
                        let here = b != 0 && points_within(n.direct_blocks@, 6, b);
                        assert(block_used_by(mv, id as int, b) == here) by {
                            if n.direct_blocks@.contains(b) {
                                let w = choose|w: int| 0 <= w < n.direct_blocks@.len() && n.direct_blocks@[w] == b;
                                assert(0 <= w < 6 && n.direct_blocks@[w] == b);
                            }
                            if points_within(n.direct_blocks@, 6, b) {
                                let w = choose|w: int| 0 <= w < 6 && n.direct_blocks@[w] == b;
                                assert(n.direct_blocks@.contains(b));
                            }
                        }
                        if before[b as int] {
                            let j = choose|j: int| 0 <= j < id && #[trigger] block_used_by(mv, j, b);
                            assert(0 <= j < id + 1 && block_used_by(mv, j, b));
                        }
                        if here {
                            assert(block_used_by(mv, id as int, b));
                        }
                        if exists|j: int| 0 <= j < id + 1 && #[trigger] block_used_by(mv, j, b) {
                            let j = choose|j: int| 0 <= j < id + 1 && #[trigger] block_used_by(mv, j, b);
                            if j < id {
                                assert(exists|j2: int| 0 <= j2 < id && #[trigger] block_used_by(mv, j2, b));
                            }
                        }
                    }
                }
            },
            None => {
                assert(m.inodes@[id as int] is None);
                proof {
                    assert forall|b: u32| b < DISK_SECTORS implies used@[b as int] == (exists|j: int| 0 <= j < id + 1 && #[trigger] block_used_by(mv, j, b)) by {
                        assert(!block_used_by(mv, id as int, b));
                        if exists|j: int| 0 <= j < id + 1 && #[trigger] block_used_by(mv, j, b) {
                            let j = choose|j: int| 0 <= j < id + 1 && #[trigger] block_used_by(mv, j, b);
                            assert(j != id);
                            assert(exists|j2: int| 0 <= j2 < id && #[trigger] block_used_by(mv, j2, b));
                        }
                    }
                }
            },
        }
        id = id + 1;
    }
    used
}

/// Finds the lowest free data block and counts it off the superblock's free-block total
/// (which wraps at zero).
pub fn allocate_data_block(m: &mut NovaMeta) -> (r: Result<u32, String>)
    requires
        old(m).wf(),
    ensures
        final(m).wf(),
        disk_full(old(m).view()) ==> (r matches Err(e) && e@ == "Out of data blocks"@) && final(m).view() == old(m).view(),
        !disk_full(old(m).view()) ==> (r matches Ok(b) && is_first_free_block(old(m).view(), b)
            && final(m).view() == with_superblock(old(m).view(),
                Superblock { free_blocks: old(m).superblock.free_blocks.wrapping_sub(1), ..old(m).superblock })),
{
    let used = used_blocks(m);
    let mut b: usize = DATA_START_SECTOR;
    while b < DISK_SECTORS
        invariant
            m.wf(),
            m.view() == old(m).view(),
            DATA_START_SECTOR <= b <= DISK_SECTORS,
            used@.len() == DISK_SECTORS,
            forall|c: u32| c < DISK_SECTORS ==> used@[c as int] == block_used(m.view(), c),
            forall|c: u32| DATA_START_SECTOR <= c < b ==> block_used(m.view(), c),
        decreases DISK_SECTORS - b,
    {
        if !used[b] {
            assert(used@[(b as u32) as int] == block_used(m.view(), b as u32));
            m.superblock.free_blocks = m.superblock.free_blocks.wrapping_sub(1);
            return Ok(b as u32);
        }
        assert(used@[(b as u32) as int] == block_used(m.view(), b as u32));
        b = b + 1;
    }
    Err(String::from_str("Out of data blocks"))
}


/// Whether `b` is one of the pointers `taken`.
fn among(taken: &[u32; 6], b: u32) -> (r: bool)
    ensures
        r == taken@.contains(b),
{
    let mut i: usize = 0;
    while i < 6
        invariant
            i <= 6,
            taken@.len() == 6,
            forall|k: int| 0 <= k < i ==> taken@[k] != b,
        decreases 6 - i,
    {
        if taken[i] == b {
            assert(taken@[i as int] == b);
            return true;
        }
        i = i + 1;
    }
    false
}

/// Finds the lowest data block that no stored inode points at and that is not among `taken`
/// (the pointers of the file being written), and counts it off the superblock's free-block
/// total (which wraps at zero).
pub fn allocate_fresh_block(m: &mut NovaMeta, taken: &[u32; 6]) -> (r: Result<u32, String>)
    requires
        old(m).wf(),
    ensures
        final(m).wf(),
        no_fresh_block(old(m).view(), taken@) ==> (r matches Err(e) && e@ == "Out of data blocks"@)
            && final(m).view() == old(m).view(),
        !no_fresh_block(old(m).view(), taken@) ==> (r matches Ok(b) && is_first_fresh_block(old(m).view(), taken@, b)
            && final(m).view() == after_alloc(old(m).view())),
{
    let used = used_blocks(m);
    let mut b: usize = DATA_START_SECTOR;
    while b < DISK_SECTORS
        invariant
            m.wf(),
            m.view() == old(m).view(),
            DATA_START_SECTOR <= b <= DISK_SECTORS,
            used@.len() == DISK_SECTORS,
            forall|c: u32| c < DISK_SECTORS ==> used@[c as int] == block_used(m.view(), c),
            forall|c: u32| DATA_START_SECTOR <= c < b ==> block_used(m.view(), c) || taken@.contains(c),
        decreases DISK_SECTORS - b,
    {
        assert(used@[(b as u32) as int] == block_used(m.view(), b as u32));
        if !used[b] && !among(taken, b as u32) {
            m.superblock.free_blocks = m.superblock.free_blocks.wrapping_sub(1);
            return Ok(b as u32);
        }
        b = b + 1;
    }
    Err(String::from_str("Out of data blocks"))
}

/// At most one block is the lowest fresh one.
pub proof fn lemma_first_fresh_unique(m: MetaView, taken: Seq<u32>, b1: u32, b2: u32)
    requires
        is_first_fresh_block(m, taken, b1),
        is_first_fresh_block(m, taken, b2),
    ensures
        b1 == b2,
{
}

/// Which blocks are fresh does not depend on the superblock's free and journal counters.
proof fn lemma_fresh_ignores_counts(m: MetaView, sb: Superblock, taken: Seq<u32>)
    requires
        sb.inode_count == m.superblock.inode_count,
    ensures
        forall|c: u32| #[trigger] is_first_fresh_block(with_superblock(m, sb), taken, c) == is_first_fresh_block(m, taken, c),
        no_fresh_block(with_superblock(m, sb), taken) == no_fresh_block(m, taken),
{
    lemma_block_use_ignores_counts(m, sb);
    let m2 = with_superblock(m, sb);
    assert forall|c: u32| #[trigger] is_first_fresh_block(m2, taken, c) == is_first_fresh_block(m, taken, c) by {
        assert(block_used(m2, c) == block_used(m, c));
        assert forall|d: u32| DATA_START_SECTOR <= d < c implies block_used(m2, d) == block_used(m, d) by {
            assert(block_used(m2, d) == block_used(m, d));
        }
    }
    assert forall|d: u32| DATA_START_SECTOR <= d < DISK_SECTORS implies block_used(m2, d) == block_used(m, d) by {
        assert(block_used(m2, d) == block_used(m, d));
    }
}

/// At most one block is the lowest free one.
pub proof fn lemma_first_free_unique(m: MetaView, b1: u32, b2: u32)
    requires
        is_first_free_block(m, b1),
        is_first_free_block(m, b2),
    ensures
        b1 == b2,
{
}

/// Which blocks are in use does not depend on the superblock's free and journal counters.
pub proof fn lemma_block_use_ignores_counts(m: MetaView, sb: Superblock)
    requires
        sb.inode_count == m.superblock.inode_count,
    ensures
        forall|c: u32| #[trigger] block_used(with_superblock(m, sb), c) == block_used(m, c),
        forall|c: u32| #[trigger] is_first_free_block(with_superblock(m, sb), c) == is_first_free_block(m, c),
        disk_full(with_superblock(m, sb)) == disk_full(m),
{
    let m2 = with_superblock(m, sb);
    assert forall|c: u32| #[trigger] block_used(m2, c) == block_used(m, c) by {
        if block_used(m, c) {
            let id = choose|id: int| 0 <= id < m.superblock.inode_count && id < INODE_SLOTS && #[trigger] block_used_by(m, id, c);
            assert(block_used_by(m2, id, c));
        }
        if block_used(m2, c) {
            let id = choose|id: int| 0 <= id < m2.superblock.inode_count && id < INODE_SLOTS && #[trigger] block_used_by(m2, id, c);
            assert(block_used_by(m, id, c));
        }
    }
    assert forall|c: u32| #[trigger] is_first_free_block(m2, c) == is_first_free_block(m, c) by {
        assert(block_used(m2, c) == block_used(m, c));
        assert forall|d: u32| DATA_START_SECTOR <= d < c implies block_used(m2, d) == block_used(m, d) by {
            assert(block_used(m2, d) == block_used(m, d));
        }
    }
    assert forall|d: u32| DATA_START_SECTOR <= d < DISK_SECTORS implies block_used(m2, d) == block_used(m, d) by {
        assert(block_used(m2, d) == block_used(m, d));
    }
}

/// Filling the first `k` pointers leaves the rest as they were.
proof fn lemma_fill_fresh_rest(m: MetaView, bl: Seq<u32>, k: int)
    requires
        0 <= k <= bl.len(),
    ensures
        fill_fresh(m, bl, k).len() == bl.len(),
        forall|j: int| k <= j < bl.len() ==> #[trigger] fill_fresh(m, bl, k)[j] == bl[j],
    decreases k,
{
    if k > 0 {
        lemma_fill_fresh_rest(m, bl, k - 1);
    }
}

/// When some data block is fresh, `first_fresh_block` names the lowest one.
proof fn lemma_first_fresh_exists(m: MetaView, taken: Seq<u32>, b: u32)
    requires
        !no_fresh_block(m, taken),
        DATA_START_SECTOR <= b <= DISK_SECTORS,
        forall|c: u32| DATA_START_SECTOR <= c < b ==> block_used(m, c) || taken.contains(c),
    ensures
        is_first_fresh_block(m, taken, first_fresh_block(m, taken)),
    decreases DISK_SECTORS - b,
{
    if b >= DISK_SECTORS {
        assert(no_fresh_block(m, taken));
    } else if !block_used(m, b) && !taken.contains(b) {
        assert(is_first_fresh_block(m, taken, b));
    } else {
        assert forall|c: u32| DATA_START_SECTOR <= c < b + 1 implies block_used(m, c) || taken.contains(c) by {
            if c == b {
            }
        }
        lemma_first_fresh_exists(m, taken, (b + 1) as u32);
    }
}

/// No pointer from `k` up to `needed` gets stuck when `first_stuck` reaches `needed`.
proof fn lemma_first_stuck_none(m: MetaView, bl: Seq<u32>, k: int, needed: int)
    requires
        first_stuck(m, bl, k, needed) == needed,
    ensures
        forall|j: int| k <= j < needed ==> !(bl[j] == 0 && #[trigger] no_fresh_block(m, fill_fresh(m, bl, j))),
    decreases needed - k,
{
    if k < needed {
        lemma_first_stuck_none(m, bl, k + 1, needed);
    }
}

/// A write's blocks are its own: when no empty pointer among the first `needed` gets stuck,
/// each of them receives a data block that no stored inode points at and that differs from
/// every other pointer of the file, so each 512-byte block of the file has a sector of its own.
pub proof fn lemma_fill_fresh_distinct(m: MetaView, bl: Seq<u32>, needed: int)
    requires
        0 <= needed <= bl.len(),
        first_stuck(m, bl, 0, needed) == needed,
    ensures
        forall|i: int| 0 <= i < needed && bl[i] == 0 ==>
            DATA_START_SECTOR <= #[trigger] fill_fresh(m, bl, needed)[i] < DISK_SECTORS
            && !block_used(m, fill_fresh(m, bl, needed)[i])
            && forall|j: int| 0 <= j < bl.len() && j != i ==> fill_fresh(m, bl, needed)[j] != fill_fresh(m, bl, needed)[i],
    decreases needed,
{
    lemma_first_stuck_none(m, bl, 0, needed);
    lemma_fill_fresh_rest(m, bl, needed);
    if needed > 0 {
        let k = needed - 1;
        assert(first_stuck(m, bl, 0, k) == k) by {
            lemma_first_stuck_prefix(m, bl, 0, k);
        }
        lemma_fill_fresh_distinct(m, bl, k);
        lemma_fill_fresh_rest(m, bl, k);
        let p = fill_fresh(m, bl, k);
        let f = fill_fresh(m, bl, needed);
        if bl[k] == 0 {
            assert(!no_fresh_block(m, p));
            lemma_first_fresh_exists(m, p, DATA_START_SECTOR as u32);
            let nb = first_fresh_block(m, p);
            assert(f == p.update(k, nb));
            assert forall|i: int| 0 <= i < needed && bl[i] == 0 implies ({
                &&& DATA_START_SECTOR <= #[trigger] f[i] < DISK_SECTORS
                &&& !block_used(m, f[i])
                &&& forall|j: int| 0 <= j < bl.len() && j != i ==> f[j] != f[i]
            }) by {
                if i < k {
                    assert(f[i] == p[i]);
                    assert forall|j: int| 0 <= j < bl.len() && j != i implies f[j] != f[i] by {
                        if j == k {
                            assert(p.contains(p[i]));
                        } else {
                            assert(f[j] == p[j]);
                        }
                    }
                } else {
                    assert forall|j: int| 0 <= j < bl.len() && j != i implies f[j] != f[i] by {
                        assert(f[j] == p[j]);
                        assert(p.contains(p[j]));
                    }
                }
            }
        }
    }
}

/// `first_stuck` reaching `needed` means it reaches any shorter bound too.
proof fn lemma_first_stuck_prefix(m: MetaView, bl: Seq<u32>, k: int, needed: int)
    requires
        0 <= k <= needed,
        first_stuck(m, bl, k, needed + 1) == needed + 1,
    ensures
        first_stuck(m, bl, k, needed) == needed,
    decreases needed - k,
{
    if k < needed {
        lemma_first_stuck_prefix(m, bl, k + 1, needed);
    }
}

/// More pointers hold at least as many empty ones.
proof fn lemma_empty_among_monotone(bl: Seq<u32>, i: int, j: int)
    requires
        0 <= i <= j,
    ensures
        empty_among(bl, i) <= empty_among(bl, j),
    decreases j - i,
{
    if i < j {
        lemma_empty_among_monotone(bl, i, j - 1);
    }
}

/// The block `allocate_data_block` picks, when one is free.
pub open spec fn first_free_block(m: MetaView) -> u32 {
    choose|b: u32| is_first_free_block(m, b)
}

/// The metadata after one block is counted off the free total.
pub open spec fn after_alloc(m: MetaView) -> MetaView {
    with_superblock(m, Superblock { free_blocks: m.superblock.free_blocks.wrapping_sub(1), ..m.superblock })
}

// ---------------------------------------------------------------- directories

/// The listing of directory inode `n` in slot `id`: empty until it has a block.
pub open spec fn listing(m: MetaView, n: Inode, id: u32) -> Seq<EntryView> {
    if n.direct_blocks@[0] == 0 { Seq::empty() } else { m.dirs[id as int] }
}

/// What reading directory `id` gives: its listing, or why there is none.
pub open spec fn dir_lookup(m: MetaView, id: u32) -> Result<Seq<EntryView>, Seq<char>> {
    match inode_lookup(m, id) {
        Err(e) => Err(e),
        Ok(n) => if !n.is_directory { Err("Node is not a directory"@) } else { Ok(listing(m, n, id)) },
    }
}

/// A copy of a directory listing.
fn copy_entries(v: &Vec<DirectoryEntry>) -> (r: Vec<DirectoryEntry>)
    ensures
        entries_view(r@) == entries_view(v@),
{
    let mut r: Vec<DirectoryEntry> = Vec::new();
    let mut i: usize = 0;
    while i < v.len()
        invariant
            i <= v@.len(),
            entries_view(r@) == entries_view(v@.subrange(0, i as int)),
        decreases v@.len() - i,
    {
        let ghost prev = r@;
        r.push(DirectoryEntry { name: v[i].name.clone(), inode_id: v[i].inode_id });
        i = i + 1;
        assert(entries_view(r@) =~= entries_view(prev).push(entry_view(v@[i - 1])));
        assert(entries_view(v@.subrange(0, i as int)) =~= entries_view(v@.subrange(0, i - 1)).push(entry_view(v@[i - 1])));
    }
    assert(v@.subrange(0, i as int) =~= v@);
    r
}

/// Reads the listing of directory `dir_inode_id`.
pub fn read_directory_entries(m: &NovaMeta, dir_inode_id: u32) -> (r: Result<Vec<DirectoryEntry>, String>)
    requires
        m.wf(),
    ensures
        match dir_lookup(m.view(), dir_inode_id) {
            Ok(l) => r matches Ok(v) && entries_view(v@) == l,
            Err(e) => r matches Err(x) && x@ == e,
        },
{
    let n = read_inode_disk(m, dir_inode_id)?;
    if !n.is_directory {
        return Err(String::from_str("Node is not a directory"));
    }
    if n.direct_blocks[0] == 0 {
        let v: Vec<DirectoryEntry> = Vec::new();
        assert(entries_view(v@) =~= Seq::<EntryView>::empty());
        return Ok(v);
    }
    let v = copy_entries(&m.dirs[dir_inode_id as usize]);
    assert(m.view().dirs[dir_inode_id as int] == entries_view(m.dirs@[dir_inode_id as int]@));
    Ok(v)
}

/// Bytes of the encoded inode `d` once its first block is `b0` and its size `size`.
pub open spec fn encoded_len_with(d: Inode, b0: u32, size: u32) -> nat {
    96 + digits(d.id as nat) + (if d.is_directory { 4nat } else { 5nat }) + digits(size as nat)
        + digits(d.owner_uid as nat) + digits(d.owner_gid as nat) + digits(d.permissions as nat)
        + digits(b0 as nat) + digits(d.direct_blocks@[1] as nat) + digits(d.direct_blocks@[2] as nat)
        + digits(d.direct_blocks@[3] as nat) + digits(d.direct_blocks@[4] as nat) + digits(d.direct_blocks@[5] as nat)
}

/// The metadata with the listing of slot `id` replaced.
pub open spec fn with_listing(m: MetaView, id: u32, l: Seq<EntryView>) -> MetaView {
    MetaView { dirs: m.dirs.update(id as int, l), ..m }
}

/// Why adding `name -> child` to directory `dir` is refused, or `None` when it is done.
pub open spec fn entry_add_error(m: MetaView, dir: u32, name: Seq<char>, child: u32) -> Option<Seq<char>> {
    match inode_lookup(m, dir) {
        Err(e) => Some(e),
        Ok(d) => if !d.is_directory {
            Some("Parent is not a directory"@)
        } else if d.direct_blocks@[0] == 0 && disk_full(m) {
            Some("Out of data blocks"@)
        } else {
            let len = listing_encoded_len(listing(m, d, dir).push((name, child)));
            let b = if d.direct_blocks@[0] == 0 { first_free_block(m) } else { d.direct_blocks@[0] };
            if len > DIR_BLOCK_PAYLOAD {
                Some("Directory lists too long for demo disk block limit"@)
            } else if encoded_len_with(d, b, len as u32) > INODE_SLOT_PAYLOAD {
                Some("Inode too complex to serialize in block slot"@)
            } else {
                None
            }
        },
    }
}

/// Why creating the regular file `name` (mode 644, owned by `uid`) in directory `dir` is
/// refused, or `None` when it is created: an inode must be free and encodable, and the entry
/// must be added (to the new file itself, should `dir` be the slot it takes, it cannot be).
pub open spec fn create_error(m: MetaView, dir: u32, name: Seq<char>, uid: u32) -> Option<Seq<char>> {
    let id = m.superblock.inode_count;
    if id >= INODE_SLOTS {
        Some("Inode ID out of limits"@)
    } else if fresh_encoded_len(id, false, uid, 100, 0o644) > INODE_SLOT_PAYLOAD {
        Some("Inode too complex to serialize in block slot"@)
    } else if dir == id {
        Some("Parent is not a directory"@)
    } else {
        entry_add_error(m, dir, name, id)
    }
}

/// A fresh inode in the next slot, counted in, points at no block: which blocks are in use
/// does not change.
pub proof fn lemma_fresh_inode_uses_no_block(m: MetaView, n: Inode)
    requires
        m.superblock.inode_count < INODE_SLOTS,
        m.inodes.len() == INODE_SLOTS,
        n.direct_blocks@ == seq![0u32, 0, 0, 0, 0, 0],
    ensures
        ({
            let id = m.superblock.inode_count;
            let m1 = with_superblock(with_inode(m, id, n), Superblock { inode_count: (id + 1) as u32, ..m.superblock });
            &&& forall|c: u32| #[trigger] block_used(m1, c) == block_used(m, c)
            &&& forall|c: u32| #[trigger] is_first_free_block(m1, c) == is_first_free_block(m, c)
            &&& disk_full(m1) == disk_full(m)
            &&& !disk_full(m) ==> first_free_block(m1) == first_free_block(m)
        }),
{
    let id = m.superblock.inode_count;
    let m1 = with_superblock(with_inode(m, id, n), Superblock { inode_count: (id + 1) as u32, ..m.superblock });
    assert forall|c: u32| #[trigger] block_used(m1, c) == block_used(m, c) by {
        if block_used(m, c) {
            let k = choose|k: int| 0 <= k < m.superblock.inode_count && k < INODE_SLOTS && #[trigger] block_used_by(m, k, c);
            assert(m1.inodes[k] == m.inodes[k]);
            assert(block_used_by(m1, k, c));
        }
        if block_used(m1, c) {
            let k = choose|k: int| 0 <= k < m1.superblock.inode_count && k < INODE_SLOTS && #[trigger] block_used_by(m1, k, c);
            if k == id as int {
                assert(m1.inodes[k] == Some(n));
                assert(!n.direct_blocks@.contains(c)) by {
                    if n.direct_blocks@.contains(c) {
                        let w = choose|w: int| 0 <= w < n.direct_blocks@.len() && n.direct_blocks@[w] == c;
                        assert(n.direct_blocks@[w] == 0u32);
                    }
                }
            } else {
                assert(m1.inodes[k] == m.inodes[k]);
                assert(block_used_by(m, k, c));
            }
        }
    }
    assert forall|c: u32| #[trigger] is_first_free_block(m1, c) == is_first_free_block(m, c) by {
        assert(block_used(m1, c) == block_used(m, c));
        if is_first_free_block(m, c) {
            assert forall|x: u32| DATA_START_SECTOR <= x < c implies #[trigger] block_used(m1, x) by {
                assert(block_used(m, x));
            }
        }
        if is_first_free_block(m1, c) {
            assert forall|x: u32| DATA_START_SECTOR <= x < c implies #[trigger] block_used(m, x) by {
                assert(block_used(m1, x));
            }
        }
    }
    assert(disk_full(m1) == disk_full(m)) by {
        if disk_full(m) {
            assert forall|x: u32| DATA_START_SECTOR <= x < DISK_SECTORS implies #[trigger] block_used(m1, x) by {
                assert(block_used(m, x));
            }
        }
        if disk_full(m1) {
            assert forall|x: u32| DATA_START_SECTOR <= x < DISK_SECTORS implies #[trigger] block_used(m, x) by {
                assert(block_used(m1, x));
            }
        }
    }
    if !disk_full(m) {
        lemma_first_free_exists(m, DATA_START_SECTOR as u32);
        let b = first_free_block(m);
        assert(is_first_free_block(m, b));
        assert(is_first_free_block(m1, b));
        lemma_first_free_unique(m1, b, first_free_block(m1));
    }
}

/// Metadata that differs from `m` at most in slot `id`'s inode, whose block pointers are the
/// same, and in listings, journal and superblock counters other than the inode count, uses
/// the same blocks.
pub proof fn lemma_same_blocks_same_use(m: MetaView, m2: MetaView, id: u32)
    requires
        m.inodes.len() == INODE_SLOTS,
        m2.inodes.len() == INODE_SLOTS,
        m2.superblock.inode_count == m.superblock.inode_count,
        0 <= id < INODE_SLOTS,
        m.inodes[id as int] matches Some(d) && (m2.inodes[id as int] matches Some(nd) && nd.direct_blocks@ == d.direct_blocks@),
        forall|k: int| 0 <= k < INODE_SLOTS && k != id ==> m2.inodes[k] == m.inodes[k],
    ensures
        forall|c: u32| #[trigger] block_used(m2, c) == block_used(m, c),
        disk_full(m2) == disk_full(m),
{
    assert forall|c: u32| #[trigger] block_used(m2, c) == block_used(m, c) by {
        if block_used(m, c) {
            let k = choose|k: int| 0 <= k < m.superblock.inode_count && k < INODE_SLOTS && #[trigger] block_used_by(m, k, c);
            assert(block_used_by(m2, k, c));
        }
        if block_used(m2, c) {
            let k = choose|k: int| 0 <= k < m2.superblock.inode_count && k < INODE_SLOTS && #[trigger] block_used_by(m2, k, c);
            assert(block_used_by(m, k, c));
        }
    }
    if disk_full(m) {
        assert forall|x: u32| DATA_START_SECTOR <= x < DISK_SECTORS implies #[trigger] block_used(m2, x) by {
            assert(block_used(m, x));
        }
    }
    if disk_full(m2) {
        assert forall|x: u32| DATA_START_SECTOR <= x < DISK_SECTORS implies #[trigger] block_used(m, x) by {
            assert(block_used(m2, x));
        }
    }
}

/// When some data block is free, a lowest free one exists (found by scanning from `b`, below
/// which every block is in use).
proof fn lemma_first_free_exists(m: MetaView, b: u32)
    requires
        !disk_full(m),
        DATA_START_SECTOR <= b <= DISK_SECTORS,
        forall|c: u32| DATA_START_SECTOR <= c < b ==> block_used(m, c),
    ensures
        is_first_free_block(m, first_free_block(m)),
    decreases DISK_SECTORS - b,
{
    if b >= DISK_SECTORS {
        assert(disk_full(m));
    } else if !block_used(m, b) {
        assert(is_first_free_block(m, b));
    } else {
        assert forall|c: u32| DATA_START_SECTOR <= c < b + 1 implies block_used(m, c) by {
            if c < b {
            } else {
                assert(c == b);
            }
        }
        lemma_first_free_exists(m, (b + 1) as u32);
    }
}

/// Adds the entry `name -> child_inode_id` to directory `dir_inode_id`, giving the directory
/// its block first if it has none. Refused when the encoded listing would not fit the block.
pub fn add_dir_entry(m: &mut NovaMeta, dir_inode_id: u32, name: &str, child_inode_id: u32) -> (r: Result<(), String>)
    requires
        old(m).wf(),
    ensures
        final(m).wf(),
        final(m).superblock.inode_count == old(m).superblock.inode_count,
        match entry_add_error(old(m).view(), dir_inode_id, name@, child_inode_id) {
            Some(e) => r matches Err(x) && x@ == e,
            None => r is Ok,
        },
        ({
            let m0 = old(m).view();
            match inode_lookup(m0, dir_inode_id) {
                Err(e) => (r matches Err(x) && x@ == e) && final(m).view() == m0,
                Ok(d) => if !d.is_directory {
                    (r matches Err(x) && x@ == "Parent is not a directory"@) && final(m).view() == m0
                } else if d.direct_blocks@[0] == 0 && disk_full(m0) {
                    (r matches Err(x) && x@ == "Out of data blocks"@) && final(m).view() == m0
                } else {
                    let l = listing(m0, d, dir_inode_id).push((name@, child_inode_id));
                    let len = listing_encoded_len(l);
                    let m1 = if d.direct_blocks@[0] == 0 { after_alloc(m0) } else { m0 };
                    let b = if d.direct_blocks@[0] == 0 { first_free_block(m0) } else { d.direct_blocks@[0] };
                    if len > DIR_BLOCK_PAYLOAD {
                        (r matches Err(x) && x@ == "Directory lists too long for demo disk block limit"@)
                            && final(m).view() == m1
                    } else {
                        let m2 = with_listing(m1, dir_inode_id, l);
                        let fits = encoded_len_with(d, b, len as u32) <= INODE_SLOT_PAYLOAD;
                        &&& fits ==> r is Ok && (final(m).view().inodes[dir_inode_id as int] matches Some(nd)
                            && nd.direct_blocks@ == d.direct_blocks@.update(0, b) && nd.size == len && b != 0
                            && nd.id == d.id && nd.is_directory && nd.owner_uid == d.owner_uid
                            && nd.owner_gid == d.owner_gid && nd.permissions == d.permissions
                            && final(m).view() == with_inode(m2, dir_inode_id, nd))
                        &&& !fits ==> (r matches Err(x) && x@ == "Inode too complex to serialize in block slot"@)
                            && final(m).view() == m2
                    }
                },
            }
        }),
{
    let mut dir = read_inode_disk(m, dir_inode_id)?;
    if !dir.is_directory {
        return Err(String::from_str("Parent is not a directory"));
    }
    let mut entries = read_directory_entries(m, dir_inode_id)?;
    let ghost m0 = m.view();
    let ghost d0 = dir;
    let ghost e0 = entries@;
    entries.push(DirectoryEntry { name: String::from_str(name), inode_id: child_inode_id });
    assert(entries_view(entries@) =~= entries_view(e0).push((name@, child_inode_id)));
    if dir.direct_blocks[0] == 0 {
        let b = allocate_data_block(m)?;
        proof {
            lemma_first_free_unique(m0, b, first_free_block(m0));
        }
        dir.direct_blocks[0] = b;
    }
    let ghost m1 = m.view();
    let len = match listing_encoded_size(&entries, DIR_BLOCK_PAYLOAD) {
        Some(n) => n,
        None => {
            return Err(String::from_str("Directory lists too long for demo disk block limit"));
        },
    };
    let ghost entries_saved = entries@;
    m.dirs.set(dir_inode_id as usize, entries);
    proof {
        assert(dirs_view(m.dirs@) =~= m1.dirs.update(dir_inode_id as int, entries_view(entries_saved)));
        assert(m.view().dirs =~= m1.dirs.update(dir_inode_id as int, listing(m0, d0, dir_inode_id).push((name@, child_inode_id))));
    }
    dir.size = len as u32;
    assert(inode_blocks_ok(dir));
    write_inode_disk(m, dir_inode_id, &dir)?;
    Ok(())
}


// ---------------------------------------------------------------- permissions

/// The permission bits that apply to `uid`: the owner triple for the owner, the "other"
/// triple for everyone else.
pub open spec fn perm_bits(n: Inode, uid: u32) -> int {
    if n.owner_uid == uid { (n.permissions as int / 64) % 8 } else { n.permissions as int % 8 }
}

/// Whether `uid` may read (or, with `write`, write) inode `n`.
pub open spec fn perm_allows(n: Inode, uid: u32, write: bool) -> bool {
    if write { (perm_bits(n, uid) / 2) % 2 == 1 } else { (perm_bits(n, uid) / 4) % 2 == 1 }
}

/// Whether `uid` may read or write inode `inode_id`; root may do anything, even on inodes that
/// do not exist.
pub fn check_permission(m: &NovaMeta, inode_id: u32, uid: u32, write_req: bool) -> (r: Result<bool, String>)
    requires
        m.wf(),
    ensures
        uid == 0 ==> r == Ok::<bool, String>(true),
        uid != 0 ==> match inode_lookup(m.view(), inode_id) {
            Ok(n) => r == Ok::<bool, String>(perm_allows(n, uid, write_req)),
            Err(e) => r matches Err(x) && x@ == e,
        },
{
    if uid == 0 {
        return Ok(true);
    }
    let n = read_inode_disk(m, inode_id)?;
    let bits: u16 = if n.owner_uid == uid { (n.permissions / 64) % 8 } else { n.permissions % 8 };
    if write_req { Ok((bits / 2) % 2 == 1) } else { Ok((bits / 4) % 2 == 1) }
}

// ---------------------------------------------------------------- journal

/// The metadata after `write_journal_log` records an uncommitted operation.
pub open spec fn journal_logged(m: MetaView, inode_id: u32, op: Seq<char>, offset: u32) -> MetaView {
    let tx = m.superblock.journal_ptr;
    MetaView {
        journal: m.journal.update(tx as int % JOURNAL_SECTORS as int, Some((tx, inode_id, op, offset, false))),
        superblock: Superblock { journal_ptr: tx.wrapping_add(1), ..m.superblock },
        ..m
    }
}

/// The metadata after `commit_journal` marks the latest transaction's slot committed.
pub open spec fn journal_committed(m: MetaView) -> MetaView {
    let p = m.superblock.journal_ptr;
    let last: int = if p > 0 { p - 1 } else { 0 };
    let slot = last % JOURNAL_SECTORS as int;
    match m.journal[slot] {
        Some(e) => MetaView { journal: m.journal.update(slot, Some((e.0, e.1, e.2, e.3, true))), ..m },
        None => m,
    }
}

/// Records an uncommitted operation in the next journal slot.
fn write_journal_log(m: &mut NovaMeta, inode_id: u32, op: &str, offset: u32)
    requires
        old(m).wf(),
    ensures
        final(m).wf(),
        final(m).view() == journal_logged(old(m).view(), inode_id, op@, offset),
{
    let tx = m.superblock.journal_ptr;
    let slot = (tx as usize) % JOURNAL_SECTORS;
    let entry = JournalEntry {
        transaction_id: tx,
        inode_id,
        operation: String::from_str(op),
        data_offset: offset,
        committed: false,
    };
    m.journal.set(slot, Some(entry));
    m.superblock.journal_ptr = tx.wrapping_add(1);
    assert(m.view().journal =~= journal_logged(old(m).view(), inode_id, op@, offset).journal);
}

/// Marks the latest transaction committed.
fn commit_journal(m: &mut NovaMeta)
    requires
        old(m).wf(),
    ensures
        final(m).wf(),
        final(m).view() == journal_committed(old(m).view()),
{
    let p = m.superblock.journal_ptr;
    let last = if p > 0 { p - 1 } else { 0 };
    let slot = (last as usize) % JOURNAL_SECTORS;
    let cur = m.journal[slot].as_ref();
    match cur {
        Some(e) => {
            let ne = JournalEntry {
                transaction_id: e.transaction_id,
                inode_id: e.inode_id,
                operation: e.operation.clone(),
                data_offset: e.data_offset,
                committed: true,
            };
            m.journal.set(slot, Some(ne));
            assert(m.view().journal =~= journal_committed(old(m).view()).journal);
        },
        None => {},
    }
}

/// The recovery message for an uncommitted journal record.
pub open spec fn recovery_line(e: JournalView) -> Seq<char> {
    "[NovaFS Journal] Recovering transaction "@ + decimal(e.0 as nat) + ", uncommitted operation: "@ + e.2
}

/// The recovery messages for the uncommitted records among the slots `j`, in slot order.
pub open spec fn recovery_lines(j: Seq<Option<JournalView>>) -> Seq<Seq<char>>
    decreases j.len(),
{
    if j.len() == 0 {
        Seq::empty()
    } else {
        let prev = recovery_lines(j.drop_last());
        match j.last() {
            Some(e) => if !e.4 { prev.push(recovery_line(e)) } else { prev },
            None => prev,
        }
    }
}

/// The views of a list of strings.
pub open spec fn strings_view(s: Seq<String>) -> Seq<Seq<char>> {
    s.map_values(|x: String| x@)
}

/// The uncommitted transactions found in the journal, as boot-time recovery messages,
/// slot by slot.
pub fn recover_journal(m: &NovaMeta) -> (r: Vec<String>)
    requires
        m.wf(),
    ensures
        strings_view(r@) == recovery_lines(m.view().journal),
{
    let ghost jv = m.view().journal;
    let mut r: Vec<String> = Vec::new();
    let mut i: usize = 0;
    while i < JOURNAL_SECTORS
        invariant
            m.wf(),
            jv == m.view().journal,
            i <= JOURNAL_SECTORS,
            strings_view(r@) == recovery_lines(jv.subrange(0, i as int)),
        decreases JOURNAL_SECTORS - i,
    {
        let ghost prev = r@;
        assert(jv.subrange(0, i + 1).drop_last() =~= jv.subrange(0, i as int));
        assert(jv[i as int] == journal_slot_view(m.journal@[i as int]));
        match m.journal[i].as_ref() {
            Some(e) => {
                if !e.committed {
                    let mut msg: Vec<char> = Vec::new();
                    push_str(&mut msg, "[NovaFS Journal] Recovering transaction ");
                    push_decimal(&mut msg, e.transaction_id as u64);
                    push_str(&mut msg, ", uncommitted operation: ");
                    let op = str_to_chars(e.operation.as_str());
                    crate::text::push_chars(&mut msg, op.as_slice());
                    let line = chars_to_string(msg.as_slice());
                    r.push(line);
                    assert(strings_view(r@) =~= strings_view(prev).push(line@));
                }
            },
            None => {},
        }
        i = i + 1;
    }
    assert(jv.subrange(0, i as int) =~= jv);
    r
}


// ---------------------------------------------------------------- quotas and usage

/// `i` is the first index of `s` whose key is `k`.
pub open spec fn is_first_key(s: Seq<(u32, u32)>, k: u32, i: int) -> bool {
    0 <= i < s.len() && s[i].0 == k && forall|j: int| 0 <= j < i ==> s[j].0 != k
}

/// The value stored under `k` (its first occurrence), if any.
pub open spec fn key_value(s: Seq<(u32, u32)>, k: u32) -> Option<u32> {
    if exists|i: int| is_first_key(s, k, i) {
        Some(s[choose|i: int| is_first_key(s, k, i)].1)
    } else {
        None
    }
}

/// `s` with `n` added (wrapping) to the value under `k`, or `(k, n)` appended when absent.
pub open spec fn add_to_key(s: Seq<(u32, u32)>, k: u32, n: u32) -> Seq<(u32, u32)> {
    if exists|i: int| is_first_key(s, k, i) {
        let i = choose|i: int| is_first_key(s, k, i);
        s.update(i, (k, s[i].1.wrapping_add(n)))
    } else {
        s.push((k, n))
    }
}

/// The first index of `s` with key `k`.
fn find_key(s: &Vec<(u32, u32)>, k: u32) -> (r: Option<usize>)
    ensures
        r matches Some(i) ==> is_first_key(s@, k, i as int),
        r is None ==> forall|j: int| 0 <= j < s@.len() ==> s@[j].0 != k,
{
    let mut i: usize = 0;
    while i < s.len()
        invariant
            i <= s@.len(),
            forall|j: int| 0 <= j < i ==> s@[j].0 != k,
        decreases s@.len() - i,
    {
        if s[i].0 == k {
            return Some(i);
        }
        i = i + 1;
    }
    None
}

/// The first index with key `k` is unique.
proof fn lemma_first_key_unique(s: Seq<(u32, u32)>, k: u32, i: int, j: int)
    requires
        is_first_key(s, k, i),
        is_first_key(s, k, j),
    ensures
        i == j,
{
}

/// The value under `k`.
fn lookup_key(s: &Vec<(u32, u32)>, k: u32) -> (r: Option<u32>)
    ensures
        r == key_value(s@, k),
{
    match find_key(s, k) {
        Some(i) => {
            proof {
                let c = choose|c: int| is_first_key(s@, k, c);
                lemma_first_key_unique(s@, k, i as int, c);
            }
            Some(s[i].1)
        },
        None => None,
    }
}

// ---------------------------------------------------------------- file data

/// Data blocks needed to hold `end` bytes.
pub open spec fn blocks_for(end: int) -> int {
    (end + 511) / 512
}

/// Block `b` is the lowest data block that no stored inode points at and that is not among
/// `taken`.
pub open spec fn is_first_fresh_block(m: MetaView, taken: Seq<u32>, b: u32) -> bool {
    &&& DATA_START_SECTOR <= b < DISK_SECTORS
    &&& !block_used(m, b)
    &&& !taken.contains(b)
    &&& forall|c: u32| DATA_START_SECTOR <= c < b ==> block_used(m, c) || taken.contains(c)
}

/// Every data block is in use or among `taken`.
pub open spec fn no_fresh_block(m: MetaView, taken: Seq<u32>) -> bool {
    forall|c: u32| DATA_START_SECTOR <= c < DISK_SECTORS ==> block_used(m, c) || taken.contains(c)
}

/// The block the allocator gives when `taken` are already the file's.
pub open spec fn first_fresh_block(m: MetaView, taken: Seq<u32>) -> u32 {
    choose|b: u32| is_first_fresh_block(m, taken, b)
}

/// The block pointers after each of the first `k` empty ones, in order, is given the lowest
/// data block that is neither in use nor already one of the file's pointers.
pub open spec fn fill_fresh(m: MetaView, bl: Seq<u32>, k: int) -> Seq<u32>
    decreases k,
{
    if k <= 0 {
        bl
    } else {
        let p = fill_fresh(m, bl, k - 1);
        if bl[k - 1] == 0 { p.update(k - 1, first_fresh_block(m, p)) } else { p }
    }
}

/// The first pointer among `k..needed` that is empty when no block is left for it, or
/// `needed` when every empty pointer gets one.
pub open spec fn first_stuck(m: MetaView, bl: Seq<u32>, k: int, needed: int) -> int
    decreases needed - k,
{
    if k >= needed {
        needed
    } else if bl[k] == 0 && no_fresh_block(m, fill_fresh(m, bl, k)) {
        k
    } else {
        first_stuck(m, bl, k + 1, needed)
    }
}

/// Empty pointers among the first `k`.
pub open spec fn empty_among(bl: Seq<u32>, k: int) -> nat
    decreases k,
{
    if k <= 0 { 0 } else { empty_among(bl, k - 1) + if bl[k - 1] == 0 { 1nat } else { 0nat } }
}

/// `f` after `c` wrapping decrements.
pub open spec fn wrapping_sub_n(f: u32, c: nat) -> u32
    decreases c,
{
    if c == 0 { f } else { wrapping_sub_n(f, (c - 1) as nat).wrapping_sub(1) }
}

/// Where file byte `p` lives on the disk, given the file's block pointers.
pub open spec fn byte_pos(bl: Seq<u32>, p: int) -> int {
    bl[p / 512] as int * 512 + p % 512
}

/// The disk after storing `data` as file bytes from `offset` on, one byte after another.
pub open spec fn write_file_bytes(d: Seq<u8>, bl: Seq<u32>, offset: int, data: Seq<u8>) -> Seq<u8>
    decreases data.len(),
{
    if data.len() == 0 {
        d
    } else {
        write_file_bytes(d, bl, offset, data.drop_last()).update(byte_pos(bl, offset + data.len() - 1), data.last())
    }
}

/// The quota refusal message.
pub open spec fn quota_message(limit: u32, current: u32) -> Seq<char> {
    "Disk quota exceeded (Limit: "@ + decimal(limit as nat) + " bytes, Current: "@ + decimal(current as nat) + " bytes)"@
}

/// Whether writing `len` more bytes for `uid` passes its quota (users without one always pass).
pub open spec fn within_quota(fs_quotas: Seq<(u32, u32)>, fs_usages: Seq<(u32, u32)>, uid: u32, len: int) -> bool {
    match key_value(fs_quotas, uid) {
        None => true,
        Some(limit) => {
            let cur = match key_value(fs_usages, uid) { Some(u) => u, None => 0u32 };
            cur + len <= limit
        },
    }
}

/// Largest file: six direct blocks.
pub const MAX_FILE_BYTES: usize = 3072;

/// A block pointer `b` below the disk size puts every byte of its block inside the disk.
proof fn lemma_byte_pos_bound(bl: Seq<u32>, p: int)
    requires
        0 <= p < MAX_FILE_BYTES,
        bl.len() == DIRECT_BLOCKS,
        forall|k: int| 0 <= k < DIRECT_BLOCKS ==> #[trigger] bl[k] < DISK_SECTORS,
    ensures
        0 <= p / 512 < DIRECT_BLOCKS,
        0 <= byte_pos(bl, p) < DISK_SIZE,
{
    let b = bl[p / 512];
    assert(b < 4096);
    assert(b as int * 512 + p % 512 < 2097152) by (nonlinear_arith)
        requires b < 4096, 0 <= p % 512 < 512;
}

/// What `write_file_data` does to the filesystem and the disk image, and what it returns
/// (see its documentation for the order of the steps).
pub open spec fn file_write_effect(fs0: NovaFs, d0: Seq<u8>, fs1: NovaFs, d1: Seq<u8>, inode_id: u32, offset: usize,
    data: Seq<u8>, uid: u32, r: Result<(), String>) -> bool
{
    let m0 = fs0.meta.view();
    let mj = journal_logged(m0, inode_id, "WRITE"@, offset as u32);
    &&& fs1.snapshots@ == fs0.snapshots@
    &&& if !within_quota(fs0.quotas@, fs0.usages@, uid, data.len() as int) {
        let limit = key_value(fs0.quotas@, uid)->0;
        let cur = match key_value(fs0.usages@, uid) { Some(u) => u, None => 0u32 };
        &&& r matches Err(e) && e@ == quota_message(limit, cur)
        &&& fs1.meta.view() == m0 && fs1.usages@ == fs0.usages@
        &&& d1 == d0
    } else {
        match inode_lookup(m0, inode_id) {
            Err(e) => (r matches Err(x) && x@ == e) && fs1.meta.view() == mj
                && fs1.usages@ == fs0.usages@ && d1 == d0,
            Ok(n) => {
                let end = offset + data.len();
                let needed = blocks_for(end);
                let bl = fill_fresh(mj, n.direct_blocks@, needed);
                let stuck = first_stuck(mj, n.direct_blocks@, 0, needed);
                let ma = with_superblock(mj, Superblock {
                    free_blocks: wrapping_sub_n(mj.superblock.free_blocks, empty_among(n.direct_blocks@, needed)),
                    ..mj.superblock
                });
                let size2: u32 = if n.size as int >= end { n.size } else { end as u32 };
                if n.is_directory {
                    (r matches Err(x) && x@ == "Cannot write data to directory"@) && fs1.meta.view() == mj
                        && fs1.usages@ == fs0.usages@ && d1 == d0
                } else if needed > DIRECT_BLOCKS {
                    (r matches Err(x) && x@ == "File size exceeds direct block capacity"@) && fs1.meta.view() == mj
                        && fs1.usages@ == fs0.usages@ && d1 == d0
                } else if stuck < needed {
                    (r matches Err(x) && x@ == "Out of data blocks"@) && fs1.meta.view() == with_superblock(mj, Superblock {
                        free_blocks: wrapping_sub_n(mj.superblock.free_blocks, empty_among(n.direct_blocks@, stuck)),
                        ..mj.superblock
                    }) && fs1.usages@ == fs0.usages@ && d1 == d0
                } else {
                    &&& d1 == write_file_bytes(d0, bl, offset as int, data)
                    &&& encoded_len_of(n, bl, size2) > INODE_SLOT_PAYLOAD ==>
                        (r matches Err(x) && x@ == "Inode too complex to serialize in block slot"@)
                        && fs1.meta.view() == ma && fs1.usages@ == fs0.usages@
                    &&& encoded_len_of(n, bl, size2) <= INODE_SLOT_PAYLOAD ==> r is Ok
                        && (fs1.meta.view().inodes[inode_id as int] matches Some(n2)
                        && n2.direct_blocks@ == bl && n2.size == size2 && n2.id == n.id && !n2.is_directory
                        && n2.owner_uid == n.owner_uid && n2.owner_gid == n.owner_gid && n2.permissions == n.permissions
                        && fs1.meta.view() == journal_committed(with_inode(ma, inode_id, n2)))
                        && fs1.usages@ == add_to_key(fs0.usages@, uid, data.len() as u32)
                }
            },
        }
    }
}

/// Write-ahead journaling: a write that passes the quota check records its transaction
/// (the next transaction number, the inode, `WRITE` and the offset) in the journal before
/// touching data, and that record is committed exactly when the write succeeds; a write
/// refused later leaves it uncommitted, for recovery to report at boot.
pub proof fn lemma_write_is_journaled(fs0: NovaFs, d0: Seq<u8>, fs1: NovaFs, d1: Seq<u8>, inode_id: u32,
    offset: usize, data: Seq<u8>, uid: u32, r: Result<(), String>)
    requires
        fs0.meta.wf(),
        file_write_effect(fs0, d0, fs1, d1, inode_id, offset, data, uid, r),
        within_quota(fs0.quotas@, fs0.usages@, uid, data.len() as int),
    ensures
        ({
            let tx = fs0.meta.view().superblock.journal_ptr;
            &&& fs1.meta.view().journal[tx as int % JOURNAL_SECTORS as int]
                == Some((tx, inode_id, "WRITE"@, offset as u32, r is Ok))
            &&& fs1.meta.view().superblock.journal_ptr == tx.wrapping_add(1)
        }),
{
    let m0 = fs0.meta.view();
    let tx = m0.superblock.journal_ptr;
    let mj = journal_logged(m0, inode_id, "WRITE"@, offset as u32);
    let slot = tx as int % JOURNAL_SECTORS as int;
    assert(m0.journal.len() == JOURNAL_SECTORS);
    assert(mj.journal[slot] == Some((tx, inode_id, "WRITE"@, offset as u32, false)));
    if r is Ok {
        let n = inode_lookup(m0, inode_id)->Ok_0;
        let n2 = fs1.meta.view().inodes[inode_id as int]->Some_0;
        let end = offset + data.len();
        let needed = blocks_for(end);
        let ma = with_superblock(mj, Superblock {
            free_blocks: wrapping_sub_n(mj.superblock.free_blocks, empty_among(n.direct_blocks@, needed)),
            ..mj.superblock
        });
        let mi = with_inode(ma, inode_id, n2);
        assert(mi.journal == mj.journal);
        assert(mi.superblock.journal_ptr == tx.wrapping_add(1));
        if tx < u32::MAX {
            assert(tx.wrapping_add(1) == tx + 1);
        } else {
            assert(tx.wrapping_add(1) == 0);
            assert(tx as int % JOURNAL_SECTORS as int == 0);
        }
    }
}

/// Writing at most one block of data at the start of an empty regular file succeeds when the
/// quota admits it and some data block is free, provided the inode's numbers are short enough
/// for its slot once it points at that block.
pub proof fn lemma_first_block_write_succeeds(fs0: NovaFs, d0: Seq<u8>, fs1: NovaFs, d1: Seq<u8>, inode_id: u32,
    data: Seq<u8>, uid: u32, r: Result<(), String>)
    requires
        fs0.meta.wf(),
        file_write_effect(fs0, d0, fs1, d1, inode_id, 0, data, uid, r),
        within_quota(fs0.quotas@, fs0.usages@, uid, data.len() as int),
        0 < data.len() <= 512,
        !disk_full(fs0.meta.view()),
        inode_lookup(fs0.meta.view(), inode_id) matches Ok(n) && !n.is_directory && n.size == 0
            && n.direct_blocks@ == seq![0u32, 0, 0, 0, 0, 0]
            && n.id < 100 && n.owner_uid < 10 && n.owner_gid < 1000 && n.permissions < 1000,
    ensures
        r is Ok,
        fs1.usages@ == add_to_key(fs0.usages@, uid, data.len() as u32),
{
    let m0 = fs0.meta.view();
    let mj = journal_logged(m0, inode_id, "WRITE"@, 0u32);
    let n = inode_lookup(m0, inode_id)->Ok_0;
    assert(inode_lookup(mj, inode_id) == inode_lookup(m0, inode_id));
    assert forall|c: u32| #[trigger] block_used(mj, c) == block_used(m0, c) by {
        if block_used(m0, c) {
            let k = choose|k: int| 0 <= k < m0.superblock.inode_count && k < INODE_SLOTS && #[trigger] block_used_by(m0, k, c);
            assert(block_used_by(mj, k, c));
        }
        if block_used(mj, c) {
            let k = choose|k: int| 0 <= k < mj.superblock.inode_count && k < INODE_SLOTS && #[trigger] block_used_by(mj, k, c);
            assert(block_used_by(m0, k, c));
        }
    }
    assert(!disk_full(mj)) by {
        let c = choose|c: u32| !(DATA_START_SECTOR <= c < DISK_SECTORS ==> block_used(m0, c));
        assert(!block_used(mj, c));
    }
    lemma_first_free_exists(mj, DATA_START_SECTOR as u32);
    let fb = first_free_block(mj);
    let z = n.direct_blocks@;
    assert(!z.contains(fb));
    assert(is_first_fresh_block(mj, z, fb));
    let b = first_fresh_block(mj, z);
    lemma_first_fresh_unique(mj, z, b, fb);
    assert(b < 4096);
    let needed = blocks_for(data.len() as int);
    assert(needed == 1);
    let bl = fill_fresh(mj, z, needed);
    assert(fill_fresh(mj, z, 0) == z);
    assert(bl =~= z.update(0, b));
    assert(bl[0] == b && bl[1] == 0 && bl[2] == 0 && bl[3] == 0 && bl[4] == 0 && bl[5] == 0);
    assert(!no_fresh_block(mj, z)) by {
        assert(!(block_used(mj, fb) || z.contains(fb)));
    }
    assert(first_stuck(mj, z, 1, 1) == 1);
    assert(first_stuck(mj, z, 0, 1) == 1);
    assert(empty_among(n.direct_blocks@, 1) == 1) by {
        reveal_with_fuel(empty_among, 2);
    }
    reveal_with_fuel(pow10, 5);
    lemma_digits_le(n.id as nat, 2);
    lemma_digits_le(data.len() as nat, 3);
    lemma_digits_le(n.owner_uid as nat, 1);
    lemma_digits_le(n.owner_gid as nat, 3);
    lemma_digits_le(n.permissions as nat, 3);
    lemma_digits_le(b as nat, 4);
    assert(digits(0) == 1);
    let size2: u32 = if n.size as int >= data.len() { n.size } else { data.len() as u32 };
    assert(size2 == data.len());
    assert(encoded_len_of(n, bl, size2) <= INODE_SLOT_PAYLOAD);
}

/// Writes `data` into file inode `inode_id` at `offset` for user `uid`.
///
/// In order: the user's quota is checked; the write is journaled; the inode must be a regular
/// file; the end must fit six blocks; each empty block pointer among those needed, in order, is
/// given a block of its own (the lowest one no stored inode points at and the file does not
/// already hold); the bytes are
/// stored; the inode is saved with its new size; the user's usage grows and the journal entry
/// is committed. A refusal after the journaling keeps the earlier effects.
pub fn write_file_data(fs: &mut NovaFs, disk: &mut DiskDevice, inode_id: u32, offset: usize, data: &[u8], uid: u32)
    -> (r: Result<(), String>)
    requires
        old(fs).wf(),
        old(disk).wf(),
    ensures
        final(fs).wf(),
        final(disk).wf(),
        final(fs).quotas@ == old(fs).quotas@,
        final(fs).snapshots@ == old(fs).snapshots@,
        final(fs).meta.superblock.inode_count == old(fs).meta.superblock.inode_count,
        file_write_effect(*old(fs), old(disk).view(), *final(fs), final(disk).view(), inode_id, offset, data@, uid, r),
{
    let limit = lookup_key(&fs.quotas, uid);
    match limit {
Some(lim) => {
    let cur = match lookup_key(&fs.usages, uid) { Some(u) => u, None => 0 };
    if (cur as u128) + (data.len() as u128) > (lim as u128) {
        let mut msg: Vec<char> = Vec::new();
        push_str(&mut msg, "Disk quota exceeded (Limit: ");
        push_decimal(&mut msg, lim as u64);
        push_str(&mut msg, " bytes, Current: ");
        push_decimal(&mut msg, cur as u64);
        push_str(&mut msg, " bytes)");
        return Err(chars_to_string(msg.as_slice()));
    }
},
None => {},
    }
    write_journal_log(&mut fs.meta, inode_id, "WRITE", offset as u32);
    let ghost mj = fs.meta.view();
    let mut inode = read_inode_disk(&fs.meta, inode_id)?;
    let ghost n0 = inode;
    if inode.is_directory {
return Err(String::from_str("Cannot write data to directory"));
    }
    if offset > MAX_FILE_BYTES || data.len() > MAX_FILE_BYTES - offset {
proof {
    assert(blocks_for(offset + data@.len()) > DIRECT_BLOCKS) by (nonlinear_arith)
        requires offset + data@.len() > 3072;
}
return Err(String::from_str("File size exceeds direct block capacity"));
    }
    let size_needed = offset + data.len();
    let blocks_needed = (size_needed + 511) / 512;
    if blocks_needed > DIRECT_BLOCKS {
return Err(String::from_str("File size exceeds direct block capacity"));
    }
    assert(inode_lookup(old(fs).meta.view(), inode_id) == inode_lookup(mj, inode_id));
    let mut i: usize = 0;
    while i < blocks_needed
        invariant
            fs.meta.wf(),
            i <= blocks_needed <= DIRECT_BLOCKS,
            blocks_needed == blocks_for(size_needed as int),
            inode_blocks_ok(inode),
            inode.id == n0.id && inode.is_directory == n0.is_directory && inode.size == n0.size
                && inode.owner_uid == n0.owner_uid && inode.owner_gid == n0.owner_gid && inode.permissions == n0.permissions,
            inode.direct_blocks@ == fill_fresh(mj, n0.direct_blocks@, i as int),
            fs.meta.view() == with_superblock(mj, Superblock {
                free_blocks: wrapping_sub_n(mj.superblock.free_blocks, empty_among(n0.direct_blocks@, i as int)),
                ..mj.superblock
            }),
            first_stuck(mj, n0.direct_blocks@, 0, blocks_needed as int) == first_stuck(mj, n0.direct_blocks@, i as int, blocks_needed as int),
            fs.quotas@ == old(fs).quotas@,
            fs.usages@ == old(fs).usages@,
            fs.snapshots@ == old(fs).snapshots@,
            old(fs).wf(),
            disk.wf(),
            disk.view() == old(disk).view(),
            mj.superblock.inode_count == old(fs).meta.superblock.inode_count,
            mj == journal_logged(old(fs).meta.view(), inode_id, "WRITE"@, offset as u32),
            inode_lookup(old(fs).meta.view(), inode_id) == Ok::<Inode, Seq<char>>(n0),
            !n0.is_directory,
            within_quota(old(fs).quotas@, old(fs).usages@, uid, data@.len() as int),
            size_needed == offset + data@.len(),
        decreases blocks_needed - i,
    {
        let ghost p = inode.direct_blocks@;
        proof {
            lemma_fill_fresh_rest(mj, n0.direct_blocks@, i as int);
        }
        if inode.direct_blocks[i] == 0 {
            let ghost mc = fs.meta.view();
            proof {
                lemma_fresh_ignores_counts(mj, mc.superblock, p);
                assert(mc == with_superblock(mj, mc.superblock));
            }
            let nb = match allocate_fresh_block(&mut fs.meta, &inode.direct_blocks) {
                Ok(x) => x,
                Err(e) => {
                    proof {
                        assert(no_fresh_block(mj, p));
                        assert(first_stuck(mj, n0.direct_blocks@, i as int, blocks_needed as int) == i as int);
                    }
                    return Err(e);
                },
            };
            proof {
                assert(is_first_fresh_block(mj, p, nb));
                assert(is_first_fresh_block(mj, p, first_fresh_block(mj, p)));
                lemma_first_fresh_unique(mj, p, nb, first_fresh_block(mj, p));
                assert(!no_fresh_block(mj, p));
            }
            inode.direct_blocks[i] = nb;
        }
        i = i + 1;
        assert(inode.direct_blocks@ =~= fill_fresh(mj, n0.direct_blocks@, i as int));
    }
    let ghost bl = inode.direct_blocks@;
    let ghost d0 = disk.storage@;
    let mut j: usize = 0;
    while j < data.len()
invariant
    j <= data@.len(),
    offset + data@.len() <= MAX_FILE_BYTES,
    blocks_needed == blocks_for(offset + data@.len()),
    blocks_needed <= DIRECT_BLOCKS,
    bl == inode.direct_blocks@,
    bl.len() == DIRECT_BLOCKS,
    inode_blocks_ok(inode),
    disk.storage@.len() == DISK_SIZE,
    disk.storage@ == write_file_bytes(d0, bl, offset as int, data@.subrange(0, j as int)),
decreases data@.len() - j,
    {
let p = offset + j;
proof {
    lemma_byte_pos_bound(bl, p as int);
}
let blk = inode.direct_blocks[p / 512];
let pos = (blk as usize) * 512 + p % 512;
disk.storage.set(pos, data[j]);
j = j + 1;
assert(data@.subrange(0, j as int).drop_last() =~= data@.subrange(0, j - 1));
    }
    assert(data@.subrange(0, j as int) =~= data@);
    if (inode.size as usize) < size_needed {
inode.size = size_needed as u32;
    }
    write_inode_disk(&mut fs.meta, inode_id, &inode)?;
    let ghost u0 = fs.usages@;
    match find_key(&fs.usages, uid) {
Some(k) => {
    let cur = fs.usages[k].1;
    fs.usages.set(k, (uid, cur.wrapping_add(data.len() as u32)));
    proof {
        let c = choose|c: int| is_first_key(u0, uid, c);
        lemma_first_key_unique(u0, uid, k as int, c);
    }
},
None => {
    fs.usages.push((uid, data.len() as u32));
},
    }
    commit_journal(&mut fs.meta);
    Ok(())
}

/// Bytes of the encoded inode `n` once its pointers are `bl` and its size `size`.
pub open spec fn encoded_len_of(n: Inode, bl: Seq<u32>, size: u32) -> nat {
    96 + digits(n.id as nat) + (if n.is_directory { 4nat } else { 5nat }) + digits(size as nat)
        + digits(n.owner_uid as nat) + digits(n.owner_gid as nat) + digits(n.permissions as nat)
        + digits(bl[0] as nat) + digits(bl[1] as nat) + digits(bl[2] as nat)
        + digits(bl[3] as nat) + digits(bl[4] as nat) + digits(bl[5] as nat)
}


/// `k` is how many file bytes from `offset` on can be read out of at most `n`: reading stops at
/// the first byte whose block pointer is empty.
pub open spec fn readable_prefix(bl: Seq<u32>, offset: int, n: int, k: int) -> bool {
    &&& 0 <= k <= n
    &&& forall|p: int| offset <= p < offset + k ==> #[trigger] bl[p / 512] != 0
    &&& k < n ==> bl[(offset + k) / 512] == 0
}

/// What `read_file_data` returns and leaves in the buffer (`b0` before, `b1` after).
pub open spec fn file_read_effect(m: MetaView, d: Seq<u8>, inode_id: u32, offset: usize, b0: Seq<u8>, b1: Seq<u8>,
    r: Result<usize, String>) -> bool
{
    match inode_lookup(m, inode_id) {
        Err(e) => (r matches Err(x) && x@ == e) && b1 == b0,
        Ok(n) => if n.is_directory {
            (r matches Err(x) && x@ == "Cannot read data from a directory"@) && b1 == b0
        } else if offset >= n.size {
            r == Ok::<usize, String>(0) && b1 == b0
        } else {
            let want = if n.size - offset < b0.len() { n.size - offset } else { b0.len() as int };
            r matches Ok(k) && readable_prefix(n.direct_blocks@, offset as int, want, k as int)
                && b1.len() == b0.len()
                && (forall|i: int| 0 <= i < k ==> #[trigger] b1[i] == d[byte_pos(n.direct_blocks@, offset + i)])
                && (forall|i: int| k <= i < b0.len() ==> #[trigger] b1[i] == b0[i])
        },
    }
}

/// Reads up to `buf.len()` bytes of file inode `inode_id` from `offset` into the front of `buf`.
pub fn read_file_data(m: &NovaMeta, disk: &DiskDevice, inode_id: u32, offset: usize, buf: &mut Vec<u8>)
    -> (r: Result<usize, String>)
    requires
        m.wf(),
        disk.wf(),
    ensures
        file_read_effect(m.view(), disk.view(), inode_id, offset, old(buf)@, final(buf)@, r),
{
    let inode = read_inode_disk(m, inode_id)?;
    if inode.is_directory {
        return Err(String::from_str("Cannot read data from a directory"));
    }
    if offset >= inode.size as usize {
        return Ok(0);
    }
    let avail = inode.size as usize - offset;
    let want = if avail < buf.len() { avail } else { buf.len() };
    let ghost b0 = buf@;
    let ghost bl = inode.direct_blocks@;
    let mut k: usize = 0;
    while k < want
        invariant
            k <= want,
            want <= buf@.len(),
            offset + want <= inode.size,
            offset < inode.size,
            inode.size <= MAX_FILE_BYTES,
            bl == inode.direct_blocks@,
            inode_blocks_ok(inode),
            disk.wf(),
            buf@.len() == b0.len(),
            forall|p: int| offset <= p < offset + k ==> #[trigger] bl[p / 512] != 0,
            forall|i: int| 0 <= i < k ==> #[trigger] buf@[i] == disk.view()[byte_pos(bl, offset + i)],
            forall|i: int| k <= i < b0.len() ==> #[trigger] buf@[i] == b0[i],
        ensures
            k == want || bl[(offset + k) / 512] == 0,
        decreases want - k,
    {
        let p = offset + k;
        assert(p / 512 < DIRECT_BLOCKS);
        let blk = inode.direct_blocks[p / 512];
        if blk == 0 {
            break;
        }
        assert(blk < 4096);
        assert((blk as int) * 512 + ((p % 512) as int) < 2097152) by (nonlinear_arith)
            requires blk < 4096, p % 512 < 512;
        let pos = (blk as usize) * 512 + p % 512;
        buf.set(k, disk.storage[pos]);
        k = k + 1;
    }
    Ok(k)
}


// ---------------------------------------------------------------- format and mount

/// The superblock of a freshly formatted volume, before its root inode is counted.
pub open spec fn formatted_superblock(inode_count: u32) -> Superblock {
    Superblock { magic: MAGIC, total_blocks: DISK_SECTORS as u32, free_blocks: (DISK_SECTORS - DATA_START_SECTOR) as u32, inode_count, journal_ptr: 0 }
}

/// `n` is the root directory inode a format creates.
pub open spec fn is_root_inode(n: Inode) -> bool {
    &&& n.id == 0
    &&& n.is_directory
    &&& n.size == 0
    &&& n.owner_uid == 0
    &&& n.owner_gid == 0
    &&& n.permissions == 0o755
    &&& n.direct_blocks@ == seq![0u32, 0, 0, 0, 0, 0]
}

/// Writes a fresh superblock and the root directory inode (id 0, owned by root, mode 755).
pub fn format_disk(m: &mut NovaMeta) -> (r: Result<(), String>)
    requires
        old(m).wf(),
    ensures
        final(m).wf(),
        r is Ok,
        final(m).view().superblock == formatted_superblock(1),
        final(m).view().inodes[0] matches Some(n) && is_root_inode(n),
        forall|i: int| 1 <= i < INODE_SLOTS ==> final(m).view().inodes[i] == old(m).view().inodes[i],
        final(m).view().dirs == old(m).view().dirs,
        final(m).view().journal == old(m).view().journal,
{
    m.superblock = Superblock {
        magic: MAGIC,
        total_blocks: DISK_SECTORS as u32,
        free_blocks: (DISK_SECTORS - DATA_START_SECTOR) as u32,
        inode_count: 0,
        journal_ptr: 0,
    };
    let root = Inode {
        id: 0,
        is_directory: true,
        size: 0,
        owner_uid: 0,
        owner_gid: 0,
        permissions: 0o755,
        direct_blocks: [0, 0, 0, 0, 0, 0],
    };
    assert(root.direct_blocks@ =~= seq![0u32, 0, 0, 0, 0, 0]);
    proof {
        reveal_with_fuel(digits, 3);
    }
    assert(inode_encoded_len(root) <= INODE_SLOT_PAYLOAD);
    write_inode_disk(m, 0, &root)?;
    m.superblock.inode_count = 1;
    Ok(())
}

/// An unformatted volume: zero superblock, empty inode slots, listings and journal.
pub fn blank_meta() -> (m: NovaMeta)
    ensures
        m.wf(),
        m.view().superblock.magic == 0,
        m.view().superblock.inode_count == 0,
        forall|i: int| 0 <= i < INODE_SLOTS ==> m.view().inodes[i] is None,
        forall|i: int| 0 <= i < JOURNAL_SECTORS ==> m.view().journal[i] is None,
{
    let mut inodes: Vec<Option<Inode>> = Vec::new();
    let mut dirs: Vec<Vec<DirectoryEntry>> = Vec::new();
    let mut i: usize = 0;
    while i < INODE_SLOTS
        invariant
            i <= INODE_SLOTS,
            inodes@.len() == i,
            dirs@.len() == i,
            forall|k: int| 0 <= k < i ==> inodes@[k] is None,
        decreases INODE_SLOTS - i,
    {
        inodes.push(None);
        dirs.push(Vec::new());
        i = i + 1;
    }
    let mut journal: Vec<Option<JournalEntry>> = Vec::new();
    let mut j: usize = 0;
    while j < JOURNAL_SECTORS
        invariant
            j <= JOURNAL_SECTORS,
            journal@.len() == j,
            forall|k: int| 0 <= k < j ==> journal@[k] is None,
        decreases JOURNAL_SECTORS - j,
    {
        journal.push(None);
        j = j + 1;
    }
    let m = NovaMeta {
        superblock: Superblock { magic: 0, total_blocks: 0, free_blocks: 0, inode_count: 0, journal_ptr: 0 },
        inodes,
        dirs,
        journal,
    };
    assert forall|k: int| 0 <= k < JOURNAL_SECTORS implies m.view().journal[k] is None by {
        assert(m.view().journal[k] == journal_slot_view(m.journal@[k]));
    }
    m
}

impl NovaFs {
    /// The filesystem over an unformatted volume, with no quotas, usage or snapshots.
    pub fn blank() -> (fs: NovaFs)
        ensures
            fs.wf(),
            fs.meta.view().superblock.magic == 0,
            fs.meta.view().superblock.inode_count == 0,
            fs.quotas@.len() == 0,
            fs.usages@.len() == 0,
            fs.snapshots@.len() == 0,
    {
        NovaFs { meta: blank_meta(), quotas: Vec::new(), usages: Vec::new(), snapshots: Vec::new() }
    }
}

/// The quota table NovaFS starts with: 2000 bytes for each of the two student accounts.
pub open spec fn initial_quotas() -> Seq<(u32, u32)> {
    seq![(1001u32, 2000u32), (1002u32, 2000u32)]
}

/// The usage table NovaFS starts with.
pub open spec fn initial_usages() -> Seq<(u32, u32)> {
    seq![(1001u32, 0u32), (1002u32, 0u32)]
}

/// Mounts NovaFS: installs the student quotas, zeroes usage, drops snapshots, and formats the
/// volume when it carries no valid superblock.
pub fn init_novafs(fs: &mut NovaFs)
    requires
        old(fs).wf(),
    ensures
        final(fs).wf(),
        final(fs).quotas@ == initial_quotas(),
        final(fs).usages@ == initial_usages(),
        final(fs).snapshots@.len() == 0,
        old(fs).meta.view().superblock.magic == MAGIC ==> final(fs).meta.view() == old(fs).meta.view(),
        old(fs).meta.view().superblock.magic != MAGIC ==> final(fs).meta.view().superblock == formatted_superblock(1)
            && (final(fs).meta.view().inodes[0] matches Some(n) && is_root_inode(n))
            && (forall|i: int| 1 <= i < INODE_SLOTS ==> final(fs).meta.view().inodes[i] == old(fs).meta.view().inodes[i])
            && final(fs).meta.view().dirs == old(fs).meta.view().dirs
            && final(fs).meta.view().journal == old(fs).meta.view().journal,
{
    let mut quotas: Vec<(u32, u32)> = Vec::new();
    quotas.push((1001, 2000));
    quotas.push((1002, 2000));
    let mut usages: Vec<(u32, u32)> = Vec::new();
    usages.push((1001, 0));
    usages.push((1002, 0));
    fs.quotas = quotas;
    fs.usages = usages;
    fs.snapshots = Vec::new();
    assert(fs.quotas@ =~= initial_quotas());
    assert(fs.usages@ =~= initial_usages());
    if fs.meta.superblock.magic != MAGIC {
        let _ = format_disk(&mut fs.meta);
    }
}

// ---------------------------------------------------------------- snapshots

/// A copy of the metadata.
fn copy_meta(m: &NovaMeta) -> (r: NovaMeta)
    requires
        m.wf(),
    ensures
        r.wf(),
        r.view() == m.view(),
{
    let mut inodes: Vec<Option<Inode>> = Vec::new();
    let mut dirs: Vec<Vec<DirectoryEntry>> = Vec::new();
    let mut i: usize = 0;
    while i < INODE_SLOTS
        invariant
            m.wf(),
            i <= INODE_SLOTS,
            inodes@ == m.inodes@.subrange(0, i as int),
            dirs_view(dirs@) == dirs_view(m.dirs@.subrange(0, i as int)),
        decreases INODE_SLOTS - i,
    {
        inodes.push(m.inodes[i]);
        let ghost prev = dirs@;
        dirs.push(copy_entries(&m.dirs[i]));
        i = i + 1;
        assert(inodes@ =~= m.inodes@.subrange(0, i as int));
        assert(dirs_view(dirs@) =~= dirs_view(prev).push(entries_view(m.dirs@[i - 1]@)));
        assert(dirs_view(m.dirs@.subrange(0, i as int)) =~= dirs_view(m.dirs@.subrange(0, i - 1)).push(entries_view(m.dirs@[i - 1]@)));
    }
    assert(inodes@ =~= m.inodes@);
    assert(m.dirs@.subrange(0, INODE_SLOTS as int) =~= m.dirs@);
    let mut journal: Vec<Option<JournalEntry>> = Vec::new();
    let mut j: usize = 0;
    while j < JOURNAL_SECTORS
        invariant
            m.wf(),
            j <= JOURNAL_SECTORS,
            journal_view(journal@) == journal_view(m.journal@.subrange(0, j as int)),
        decreases JOURNAL_SECTORS - j,
    {
        let ghost prev = journal@;
        let slot = match m.journal[j].as_ref() {
            Some(e) => Some(JournalEntry {
                transaction_id: e.transaction_id,
                inode_id: e.inode_id,
                operation: e.operation.clone(),
                data_offset: e.data_offset,
                committed: e.committed,
            }),
            None => None,
        };
        journal.push(slot);
        j = j + 1;
        assert(journal_view(journal@) =~= journal_view(prev).push(journal_slot_view(m.journal@[j - 1])));
        assert(journal_view(m.journal@.subrange(0, j as int)) =~= journal_view(m.journal@.subrange(0, j - 1)).push(journal_slot_view(m.journal@[j - 1])));
    }
    assert(m.journal@.subrange(0, JOURNAL_SECTORS as int) =~= m.journal@);
    let r = NovaMeta { superblock: m.superblock, inodes, dirs, journal };
    assert(r.view().dirs =~= m.view().dirs);
    assert(r.view().journal =~= m.view().journal);
    r
}

/// What snapshot `id` holds: the disk image and the metadata it saved.
pub open spec fn snapshot_of(fs: NovaFs, id: u32) -> Option<(Seq<u8>, MetaView)> {
    if exists|i: int| 0 <= i < fs.snapshots@.len() && fs.snapshots@[i].id == id {
        let i = choose|i: int| 0 <= i < fs.snapshots@.len() && fs.snapshots@[i].id == id;
        Some((fs.snapshots@[i].disk_backup@, fs.snapshots@[i].meta_backup.view()))
    } else {
        None
    }
}

/// Index of snapshot `id`, if any.
fn find_snapshot(fs: &NovaFs, id: u32) -> (r: Option<usize>)
    ensures
        r matches Some(i) ==> i < fs.snapshots@.len() && fs.snapshots@[i as int].id == id,
        r is None ==> forall|i: int| 0 <= i < fs.snapshots@.len() ==> fs.snapshots@[i].id != id,
{
    let mut i: usize = 0;
    while i < fs.snapshots.len()
        invariant
            i <= fs.snapshots@.len(),
            forall|k: int| 0 <= k < i ==> fs.snapshots@[k].id != id,
        decreases fs.snapshots@.len() - i,
    {
        if fs.snapshots[i].id == id {
            return Some(i);
        }
        i = i + 1;
    }
    None
}

/// What saving snapshot `id` of the volume did (`fs0` before with the disk image `disk`, `fs1`
/// after) and returned.
pub open spec fn create_snapshot_post(fs0: NovaFs, disk: Seq<u8>, fs1: NovaFs, id: u32, r: Result<(), String>) -> bool {
    &&& fs1.meta.view() == fs0.meta.view()
    &&& fs1.quotas@ == fs0.quotas@
    &&& fs1.usages@ == fs0.usages@
    &&& match inode_lookup(fs0.meta.view(), 0) {
        Err(e) => (r matches Err(x) && x@ == e) && fs1.snapshots@ == fs0.snapshots@,
        Ok(_) => r is Ok && snapshot_of(fs1, id) == Some((disk, fs0.meta.view()))
            && forall|other: u32| other != id ==> #[trigger] snapshot_of(fs1, other) == snapshot_of(fs0, other),
    }
}

/// What restoring snapshot `id` did (`fs0`, `d0` before; `fs1`, `d1` after) and returned.
pub open spec fn restore_snapshot_post(fs0: NovaFs, d0: Seq<u8>, fs1: NovaFs, d1: Seq<u8>, id: u32, r: Result<(), String>) -> bool {
    &&& fs1.quotas@ == fs0.quotas@
    &&& fs1.usages@ == fs0.usages@
    &&& fs1.snapshots@ == fs0.snapshots@
    &&& match snapshot_of(fs0, id) {
        None => (r matches Err(x) && x@ == "Snapshot ID not found"@) && fs1.meta.view() == fs0.meta.view() && d1 == d0,
        Some((d, m)) => r is Ok && d1 == d && fs1.meta.view() == m,
    }
}

/// Snapshot round trip: after snapshot `id` is taken of a volume with a root directory, any
/// number of writes (each leaves the snapshots as they were, see `lemma_restore_undoes_write`)
/// followed by a restore of `id` succeeds and gives back the disk and metadata of the moment
/// the snapshot was taken, every sector reading as it did then; a restore of an id that was
/// never taken fails and leaves the disk as it is.
pub proof fn lemma_snapshot_round_trip(fs0: NovaFs, d0: Seq<u8>, fs1: NovaFs, cr: Result<(), String>, fs2: NovaFs,
    d2: Seq<u8>, fs3: NovaFs, d3: Seq<u8>, id: u32, rr: Result<(), String>)
    requires
        inode_lookup(fs0.meta.view(), 0) is Ok,
        create_snapshot_post(fs0, d0, fs1, id, cr),
        fs2.snapshots@ == fs1.snapshots@,
        restore_snapshot_post(fs2, d2, fs3, d3, id, rr),
    ensures
        cr is Ok,
        rr is Ok,
        d3 == d0,
        fs3.meta.view() == fs0.meta.view(),
        forall|s: int| 0 <= s < crate::drivers::disk::DISK_SECTORS ==>
            #[trigger] crate::drivers::disk::sector_bytes(d3, s) == crate::drivers::disk::sector_bytes(d0, s),
{
}

/// A restore of a snapshot id that was never taken fails and leaves the disk and metadata as
/// they are.
pub proof fn lemma_restore_missing_snapshot(fs0: NovaFs, d0: Seq<u8>, fs1: NovaFs, d1: Seq<u8>, id: u32, r: Result<(), String>)
    requires
        snapshot_of(fs0, id) is None,
        restore_snapshot_post(fs0, d0, fs1, d1, id, r),
    ensures
        r matches Err(e) && e@ == "Snapshot ID not found"@,
        d1 == d0,
        fs1.meta.view() == fs0.meta.view(),
{
}

/// Saves the whole volume (every sector and all metadata) as snapshot `snapshot_id`,
/// replacing an older snapshot with that id. Needs the root inode.
pub fn create_snapshot(fs: &mut NovaFs, disk: &DiskDevice, snapshot_id: u32) -> (r: Result<(), String>)
    requires
        old(fs).wf(),
        disk.wf(),
    ensures
        final(fs).wf(),
        create_snapshot_post(*old(fs), disk.view(), *final(fs), snapshot_id, r),
{
    let root = read_inode_disk(&fs.meta, 0)?;
    let backup = crate::drivers::network::copy_bytes(&disk.storage);
    let meta_backup = copy_meta(&fs.meta);
    let snap = Snapshot { id: snapshot_id, timestamp: SNAPSHOT_TIMESTAMP, root_inode_copy: root, disk_backup: backup, meta_backup };
    let ghost s0 = fs.snapshots@;
    match find_snapshot(fs, snapshot_id) {
        Some(i) => {
            fs.snapshots.set(i, snap);
            proof {
                let s1 = fs.snapshots@;
                assert(s1[i as int].id == snapshot_id);
                assert forall|a: int, b: int| 0 <= a < b < s1.len() implies s1[a].id != s1[b].id by {
                    if a != i as int { assert(s1[a] == s0[a]); }
                    if b != i as int { assert(s1[b] == s0[b]); }
                }
                assert forall|k: int| 0 <= k < s1.len() implies (#[trigger] s1[k]).meta_backup.wf() && s1[k].disk_backup@.len() == DISK_SIZE by {
                    if k != i as int { assert(s1[k] == s0[k]); }
                }
                let c = choose|c: int| 0 <= c < s1.len() && s1[c].id == snapshot_id;
                assert(c == i as int);
                assert forall|other: u32| other != snapshot_id implies #[trigger] snapshot_of(*fs, other) == snapshot_of(*old(fs), other) by {
                    if exists|k: int| 0 <= k < s0.len() && s0[k].id == other {
                        let k = choose|k: int| 0 <= k < s0.len() && s0[k].id == other;
                        assert(s1[k] == s0[k]);
                        let k2 = choose|k2: int| 0 <= k2 < s1.len() && s1[k2].id == other;
                        assert(s1[k2] == s0[k2]);
                    }
                    if exists|k: int| 0 <= k < s1.len() && s1[k].id == other {
                        let k = choose|k: int| 0 <= k < s1.len() && s1[k].id == other;
                        assert(s0[k] == s1[k]);
                    }
                }
            }
        },
        None => {
            fs.snapshots.push(snap);
            proof {
                let s1 = fs.snapshots@;
                assert forall|a: int, b: int| 0 <= a < b < s1.len() implies s1[a].id != s1[b].id by {
                    if b < s0.len() { assert(s1[a] == s0[a]); assert(s1[b] == s0[b]); }
                    else { assert(s1[a] == s0[a]); }
                }
                assert forall|k: int| 0 <= k < s1.len() implies (#[trigger] s1[k]).meta_backup.wf() && s1[k].disk_backup@.len() == DISK_SIZE by {
                    if k < s0.len() { assert(s1[k] == s0[k]); }
                }
                let last = s1.len() - 1;
                assert(0 <= last < s1.len() && s1[last].id == snapshot_id);
                let c = choose|c: int| 0 <= c < s1.len() && s1[c].id == snapshot_id;
                assert(c == last);
                assert forall|other: u32| other != snapshot_id implies #[trigger] snapshot_of(*fs, other) == snapshot_of(*old(fs), other) by {
                    if exists|k: int| 0 <= k < s0.len() && s0[k].id == other {
                        let k = choose|k: int| 0 <= k < s0.len() && s0[k].id == other;
                        assert(s1[k] == s0[k]);
                        let k2 = choose|k2: int| 0 <= k2 < s1.len() && s1[k2].id == other;
                        assert(k2 < s0.len());
                        assert(s1[k2] == s0[k2]);
                    }
                    if exists|k: int| 0 <= k < s1.len() && s1[k].id == other {
                        let k = choose|k: int| 0 <= k < s1.len() && s1[k].id == other;
                        assert(k < s0.len());
                        assert(s0[k] == s1[k]);
                    }
                }
            }
        },
    }
    Ok(())
}

/// Puts the disk and the metadata back as snapshot `snapshot_id` saved them.
pub fn restore_snapshot(fs: &mut NovaFs, disk: &mut DiskDevice, snapshot_id: u32) -> (r: Result<(), String>)
    requires
        old(fs).wf(),
        old(disk).wf(),
    ensures
        final(fs).wf(),
        final(disk).wf(),
        restore_snapshot_post(*old(fs), old(disk).view(), *final(fs), final(disk).view(), snapshot_id, r),
{
    match find_snapshot(fs, snapshot_id) {
        None => Err(String::from_str("Snapshot ID not found")),
        Some(i) => {
            proof {
                let c = choose|c: int| 0 <= c < fs.snapshots@.len() && fs.snapshots@[c].id == snapshot_id;
                assert(c == i as int);
            }
            let d = crate::drivers::network::copy_bytes(&fs.snapshots[i].disk_backup);
            let m = copy_meta(&fs.snapshots[i].meta_backup);
            disk.storage = d;
            fs.meta = m;
            Ok(())
        },
    }
}

/// A write leaves every snapshot as it was, so restoring a snapshot taken before the write
/// gives back the disk and metadata from before it: the write is undone.
pub proof fn lemma_restore_undoes_write(fs0: NovaFs, d0: Seq<u8>, fs1: NovaFs, d1: Seq<u8>, inode_id: u32,
    offset: usize, data: Seq<u8>, uid: u32, r: Result<(), String>, id: u32, disk: Seq<u8>, meta: MetaView)
    requires
        snapshot_of(fs0, id) == Some((disk, meta)),
        file_write_effect(fs0, d0, fs1, d1, inode_id, offset, data, uid, r),
    ensures
        snapshot_of(fs1, id) == Some((disk, meta)),
{
}

/// Restoring a snapshot gives back exactly the disk and metadata it was created from.
pub proof fn lemma_snapshot_roundtrip(fs1: NovaFs, fs2: NovaFs, id: u32, disk: Seq<u8>, meta: MetaView)
    requires
        snapshot_of(fs1, id) == Some((disk, meta)),
        fs2.snapshots@ == fs1.snapshots@,
    ensures
        snapshot_of(fs2, id) == Some((disk, meta)),
{
}


/// File bytes `offset .. offset + len` land on distinct disk positions inside an image of
/// `size` bytes.
pub open spec fn distinct_positions(bl: Seq<u32>, offset: int, len: int, size: int) -> bool {
    &&& forall|p: int| offset <= p < offset + len ==> 0 <= #[trigger] byte_pos(bl, p) < size
    &&& forall|p: int, q: int| offset <= p < q < offset + len ==> #[trigger] byte_pos(bl, p) != #[trigger] byte_pos(bl, q)
}

/// Reading back after a write: when the written file bytes land on distinct disk positions,
/// each of them holds the byte that was written there.
pub proof fn lemma_read_after_write(d: Seq<u8>, bl: Seq<u32>, offset: int, data: Seq<u8>, i: int)
    requires
        distinct_positions(bl, offset, data.len() as int, d.len() as int),
        0 <= i < data.len(),
    ensures
        write_file_bytes(d, bl, offset, data)[byte_pos(bl, offset + i)] == data[i],
        write_file_bytes(d, bl, offset, data).len() == d.len(),
    decreases data.len(),
{
    let n = data.len() as int;
    let prefix = data.drop_last();
    assert(distinct_positions(bl, offset, n - 1, d.len() as int));
    lemma_write_len(d, bl, offset, prefix);
    assert(0 <= byte_pos(bl, offset + n - 1) < d.len());
    if i < n - 1 {
        lemma_read_after_write(d, bl, offset, prefix, i);
        assert(byte_pos(bl, offset + i) != byte_pos(bl, offset + n - 1));
        assert(prefix[i] == data[i]);
    } else {
        lemma_write_len(d, bl, offset, prefix);
        assert(0 <= byte_pos(bl, offset + n - 1) < d.len());
    }
}

/// Writing file bytes keeps the image size.
proof fn lemma_write_len(d: Seq<u8>, bl: Seq<u32>, offset: int, data: Seq<u8>)
    requires
        forall|p: int| offset <= p < offset + data.len() ==> 0 <= #[trigger] byte_pos(bl, p) < d.len(),
    ensures
        write_file_bytes(d, bl, offset, data).len() == d.len(),
    decreases data.len(),
{
    if data.len() > 0 {
        lemma_write_len(d, bl, offset, data.drop_last());
    }
}

/// Bytes spread over blocks whose pointers are valid and pairwise distinct land on distinct
/// positions.
pub proof fn lemma_multi_block_distinct(bl: Seq<u32>, offset: int, len: int)
    requires
        0 <= offset,
        0 <= len,
        (offset + len + 511) / 512 <= bl.len(),
        forall|k: int| offset / 512 <= k < (offset + len + 511) / 512 ==> #[trigger] bl[k] < DISK_SECTORS,
        forall|k1: int, k2: int| offset / 512 <= k1 < (offset + len + 511) / 512 && offset / 512 <= k2 < (offset + len + 511) / 512
            && k1 != k2 ==> #[trigger] bl[k1] != #[trigger] bl[k2],
    ensures
        distinct_positions(bl, offset, len, DISK_SIZE as int),
{
    let hi = (offset + len + 511) / 512;
    assert forall|p: int| offset <= p < offset + len implies 0 <= #[trigger] byte_pos(bl, p) < DISK_SIZE by {
        let k = p / 512;
        assert(offset / 512 <= k < hi) by (nonlinear_arith)
            requires offset <= p < offset + len, k == p / 512, hi == (offset + len + 511) / 512, 0 <= offset;
        assert(bl[k] < 4096);
        assert(bl[k] as int * 512 + p % 512 < 2097152) by (nonlinear_arith)
            requires bl[k] < 4096, 0 <= p % 512 < 512;
    }
    assert forall|p: int, q: int| offset <= p < q < offset + len implies #[trigger] byte_pos(bl, p) != #[trigger] byte_pos(bl, q) by {
        let kp = p / 512;
        let kq = q / 512;
        assert(offset / 512 <= kp < hi && offset / 512 <= kq < hi) by (nonlinear_arith)
            requires offset <= p < q, q < offset + len, kp == p / 512, kq == q / 512, hi == (offset + len + 511) / 512, 0 <= offset;
        if kp == kq {
            assert(p % 512 != q % 512) by (nonlinear_arith)
                requires p / 512 == q / 512, p < q, 0 <= p;
        } else {
            assert(bl[kp] != bl[kq]);
            assert(bl[kp] as int * 512 + p % 512 != bl[kq] as int * 512 + q % 512) by (nonlinear_arith)
                requires bl[kp] != bl[kq], 0 <= p % 512 < 512, 0 <= q % 512 < 512;
        }
    }
}

/// Reading back a first write to a new file: when a file with no blocks yet is written from
/// its start and no block runs out, every written byte lands on a position of its own, so
/// each one reads back as written.
pub proof fn lemma_new_file_write_reads_back(m: MetaView, bl: Seq<u32>, d: Seq<u8>, data: Seq<u8>, i: int)
    requires
        bl.len() == DIRECT_BLOCKS,
        forall|k: int| 0 <= k < DIRECT_BLOCKS ==> bl[k] == 0,
        blocks_for(data.len() as int) <= DIRECT_BLOCKS,
        first_stuck(m, bl, 0, blocks_for(data.len() as int)) == blocks_for(data.len() as int),
        d.len() == DISK_SIZE,
        0 <= i < data.len(),
    ensures
        ({
            let f = fill_fresh(m, bl, blocks_for(data.len() as int));
            write_file_bytes(d, f, 0, data)[byte_pos(f, i)] == data[i]
        }),
{
    let needed = blocks_for(data.len() as int);
    let f = fill_fresh(m, bl, needed);
    lemma_fill_fresh_distinct(m, bl, needed);
    lemma_fill_fresh_rest(m, bl, needed);
    assert(f.len() == DIRECT_BLOCKS);
    assert(0int / 512 == 0);
    assert forall|k: int| 0 <= k < needed implies #[trigger] f[k] < DISK_SECTORS by {
        assert(bl[k] == 0);
    }
    assert forall|k1: int, k2: int| 0 <= k1 < needed && 0 <= k2 < needed && k1 != k2 implies #[trigger] f[k1] != #[trigger] f[k2] by {
        assert(bl[k1] == 0);
    }
    lemma_multi_block_distinct(f, 0, data.len() as int);
    lemma_read_after_write(d, f, 0, data, i);
}

/// What a read gives back of a write: after `data` is written from the start of a file that
/// has no blocks yet and the write succeeds, the file is at least as long as `data` and each
/// of its first bytes, where a read looks for it, holds the byte that was written.
pub proof fn lemma_write_then_read_new_file(fs0: NovaFs, d0: Seq<u8>, fs1: NovaFs, d1: Seq<u8>, inode_id: u32,
    data: Seq<u8>, uid: u32, i: int)
    requires
        fs0.meta.wf(),
        d0.len() == DISK_SIZE,
        file_write_effect(fs0, d0, fs1, d1, inode_id, 0, data, uid, Ok(())),
        inode_lookup(fs0.meta.view(), inode_id) matches Ok(n) && forall|k: int| 0 <= k < DIRECT_BLOCKS ==> n.direct_blocks@[k] == 0,
        0 <= i < data.len(),
    ensures
        fs1.meta.view().inodes[inode_id as int] matches Some(n2) && n2.size >= data.len()
            && d1[byte_pos(n2.direct_blocks@, i)] == data[i],
{
    let m0 = fs0.meta.view();
    let mj = journal_logged(m0, inode_id, "WRITE"@, 0u32);
    let n = inode_lookup(m0, inode_id)->Ok_0;
    let needed = blocks_for(data.len() as int);
    assert(within_quota(fs0.quotas@, fs0.usages@, uid, data.len() as int));
    assert(!n.is_directory);
    assert(needed <= DIRECT_BLOCKS);
    lemma_first_stuck_bound(mj, n.direct_blocks@, 0, needed);
    assert(first_stuck(mj, n.direct_blocks@, 0, needed) == needed);
    lemma_new_file_write_reads_back(mj, n.direct_blocks@, d0, data, i);
}

/// `first_stuck` never passes its bound.
proof fn lemma_first_stuck_bound(m: MetaView, bl: Seq<u32>, k: int, needed: int)
    ensures
        first_stuck(m, bl, k, needed) <= needed,
    decreases needed - k,
{
    if k < needed {
        lemma_first_stuck_bound(m, bl, k + 1, needed);
    }
}

/// Bytes within one block always land on distinct positions.
pub proof fn lemma_single_block_distinct(bl: Seq<u32>, offset: int, len: int)
    requires
        0 <= offset,
        0 < len,
        offset / 512 == (offset + len - 1) / 512,
        0 <= offset / 512 < bl.len(),
        bl[offset / 512] < DISK_SECTORS,
    ensures
        distinct_positions(bl, offset, len, DISK_SIZE as int),
{
    let k = offset / 512;
    assert forall|p: int| offset <= p < offset + len implies 0 <= #[trigger] byte_pos(bl, p) < DISK_SIZE by {
        assert(p / 512 == k) by (nonlinear_arith)
            requires offset <= p < offset + len, offset / 512 == (offset + len - 1) / 512, k == offset / 512, 0 <= offset;
        assert(bl[k] as int * 512 + p % 512 < 2097152) by (nonlinear_arith)
            requires bl[k] < 4096, 0 <= p % 512 < 512;
    }
    assert forall|p: int, q: int| offset <= p < q < offset + len implies #[trigger] byte_pos(bl, p) != #[trigger] byte_pos(bl, q) by {
        assert(p / 512 == k && q / 512 == k) by (nonlinear_arith)
            requires offset <= p < q, q < offset + len, offset / 512 == (offset + len - 1) / 512, k == offset / 512, 0 <= offset;
        assert(p % 512 != q % 512) by (nonlinear_arith)
            requires p / 512 == q / 512, p < q, 0 <= p;
    }
}

} // verus!
