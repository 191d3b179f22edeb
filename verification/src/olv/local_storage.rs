//! OLV local storage patching to save a token: the contents of `largeStorage.bin`.
use vstd::prelude::*;
use vstd::string::StringSliceAdditionalSpecFns;
use vstd::string::StrSliceExecFns;

verus! {

/// The length of a fresh `largeStorage.bin`.
pub const STORAGE_LEN: u64 = 8_433_950;

/// Where the localStorage key is written.
pub const KEY_OFFSET: u64 = 0x3000;

/// Where the localStorage value is written.
pub const VALUE_OFFSET: u64 = 0xb000;

/// The OLV system save data id (US region).
pub const OLV_SAVE_ID: u32 = 0x000200BD;

/// The name of the file inside the mounted OLV save archive.
pub const STORAGE_FILE: &'static str = "olv:/largeStorage.bin";

/// One write into the storage file: `bytes` at `offset`.
#[derive(Debug)]
pub struct StorageWrite {
    pub offset: u64,
    pub bytes: Vec<u8>,
}

impl View for StorageWrite {
    type V = (int, Seq<u8>);

    open spec fn view(&self) -> (int, Seq<u8>) {
        (self.offset as int, self.bytes@)
    }
}

/// OLV largeStorage.bin offsets, as seen by a fresh OLV install.
/// This is consistent between N3DS and O3DS.
pub open spec fn header_patches() -> Seq<(int, Seq<u8>)> {
    seq![
        (0x0000int, seq![0x53u8, 0x4du8, 0x46u8, 0x43u8]),
        (0x0004int, seq![0x09u8]),
        (0x1000int, seq![0x01u8]),
        (0x1004int, seq![0x01u8]),
        (0x1008int, seq![0x01u8]),
        (0x1048int, seq![0xFFu8, 0xFFu8, 0xFFu8, 0xFFu8]),
        (0x1148int, seq![0x01u8]),
        (0x114cint, seq![0x01u8]),
        (0x114dint, seq![0x08u8]),
    ]
}

/// The writes that make the storage file, in order: the fresh-install header,
/// then the key at `KEY_OFFSET`, then the value at `VALUE_OFFSET`.
pub open spec fn storage_plan(key: Seq<u8>, value: Seq<u8>) -> Seq<(int, Seq<u8>)> {
    header_patches() + seq![(KEY_OFFSET as int, key), (VALUE_OFFSET as int, value)]
}

/// `n` zero bytes.
pub open spec fn zeros(n: nat) -> Seq<u8> {
    Seq::new(n, |i: int| 0u8)
}

/// A file after seeking to `offset` and writing `data`: the written range holds
/// `data`, the rest keeps its bytes, and the file grows (zero-filled) to cover the write.
pub open spec fn write_at(file: Seq<u8>, offset: int, data: Seq<u8>) -> Seq<u8> {
    let end = offset + data.len();
    let len = if end > file.len() {
        end
    } else {
        file.len() as int
    };
    Seq::new(
        len as nat,
        |i: int|
            if offset <= i < end {
                data[i - offset]
            } else if i < file.len() {
                file[i]
            } else {
                0u8
            },
    )
}

/// A file after the writes in order.
pub open spec fn apply_writes(file: Seq<u8>, writes: Seq<(int, Seq<u8>)>) -> Seq<u8>
    decreases writes.len(),
{
    if writes.len() == 0 {
        file
    } else {
        write_at(apply_writes(file, writes.drop_last()), writes.last().0, writes.last().1)
    }
}

/// The storage file holding `key: value`: a zeroed file of `STORAGE_LEN` bytes
/// after the writes of `storage_plan`.
pub open spec fn storage_image_of(key: Seq<u8>, value: Seq<u8>) -> Seq<u8> {
    apply_writes(zeros(STORAGE_LEN as nat), storage_plan(key, value))
}

/// The byte at `i` after the writes: that of the last write covering `i`,
/// else the file's own byte, else zero.
pub open spec fn byte_after(file: Seq<u8>, writes: Seq<(int, Seq<u8>)>, i: int) -> u8
    decreases writes.len(),
{
    if writes.len() == 0 {
        if 0 <= i < file.len() {
            file[i]
        } else {
            0u8
        }
    } else if writes.last().0 <= i < writes.last().0 + writes.last().1.len() {
        writes.last().1[i - writes.last().0]
    } else {
        byte_after(file, writes.drop_last(), i)
    }
}

/// The length of a file after the writes: the furthest end reached.
pub open spec fn len_after(file: Seq<u8>, writes: Seq<(int, Seq<u8>)>) -> int
    decreases writes.len(),
{
    if writes.len() == 0 {
        file.len() as int
    } else {
        let prev = len_after(file, writes.drop_last());
        let end = writes.last().0 + writes.last().1.len();
        if end > prev {
            end
        } else {
            prev
        }
    }
}

/// Past the furthest end reached, a file reads as zero.
proof fn lemma_byte_after_beyond(file: Seq<u8>, writes: Seq<(int, Seq<u8>)>, i: int)
    requires
        i >= len_after(file, writes),
    ensures
        byte_after(file, writes, i) == 0,
        len_after(file, writes) >= file.len(),
    decreases writes.len(),
{
    if writes.len() > 0 {
        lemma_byte_after_beyond(file, writes.drop_last(), i);
    }
}

/// Writes at non-negative offsets leave a file of `len_after` bytes, each the
/// byte of the last write covering it, else the file's own, else zero.
pub proof fn lemma_apply_writes(file: Seq<u8>, writes: Seq<(int, Seq<u8>)>)
    requires
        forall|k: int| 0 <= k < writes.len() ==> #[trigger] writes[k].0 >= 0,
    ensures
        apply_writes(file, writes).len() == len_after(file, writes),
        forall|i: int|
            0 <= i < len_after(file, writes) ==> #[trigger] apply_writes(file, writes)[i]
                == byte_after(file, writes, i),
    decreases writes.len(),
{
    if writes.len() > 0 {
        let prev = writes.drop_last();
        assert forall|k: int| 0 <= k < prev.len() implies #[trigger] prev[k].0 >= 0 by {
            assert(prev[k] == writes[k]);
        }
        lemma_apply_writes(file, prev);
        assert(writes[writes.len() - 1].0 >= 0);
        assert forall|i: int| 0 <= i < len_after(file, writes) implies #[trigger] apply_writes(
            file,
            writes,
        )[i] == byte_after(file, writes, i) by {
            let last = writes.last();
            if !(last.0 <= i < last.0 + last.1.len()) {
                if i < len_after(file, prev) {
                    assert(apply_writes(file, prev)[i] == byte_after(file, prev, i));
                } else {
                    lemma_byte_after_beyond(file, prev, i);
                }
            }
        }
    }
}

/// Write `w` covers position `i`.
pub open spec fn covers(w: (int, Seq<u8>), i: int) -> bool {
    w.0 <= i < w.0 + w.1.len()
}

/// The byte of the last write covering `i` is the one that stays.
proof fn lemma_last_cover(file: Seq<u8>, writes: Seq<(int, Seq<u8>)>, k: int, i: int)
    requires
        0 <= k < writes.len(),
        covers(writes[k], i),
        forall|j: int| k < j < writes.len() ==> !covers(#[trigger] writes[j], i),
    ensures
        byte_after(file, writes, i) == writes[k].1[i - writes[k].0],
    decreases writes.len(),
{
    if k < writes.len() - 1 {
        assert(!covers(writes[writes.len() - 1], i));
        let prev = writes.drop_last();
        assert forall|j: int| k < j < prev.len() implies !covers(#[trigger] prev[j], i) by {
            assert(prev[j] == writes[j]);
        }
        lemma_last_cover(file, prev, k, i);
    }
}

/// A position no write covers keeps the file's byte, or zero past its end.
proof fn lemma_no_cover(file: Seq<u8>, writes: Seq<(int, Seq<u8>)>, i: int)
    requires
        forall|j: int| 0 <= j < writes.len() ==> !covers(#[trigger] writes[j], i),
    ensures
        byte_after(file, writes, i) == if 0 <= i < file.len() {
            file[i]
        } else {
            0u8
        },
    decreases writes.len(),
{
    if writes.len() > 0 {
        assert(!covers(writes[writes.len() - 1], i));
        let prev = writes.drop_last();
        assert forall|j: int| 0 <= j < prev.len() implies !covers(#[trigger] prev[j], i) by {
            assert(prev[j] == writes[j]);
        }
        lemma_no_cover(file, prev, i);
    }
}

/// The length after the writes is the larger of the file's and the furthest end of a write.
proof fn lemma_len_after(file: Seq<u8>, writes: Seq<(int, Seq<u8>)>, bound: int)
    requires
        file.len() <= bound,
        forall|j: int| 0 <= j < writes.len() ==> #[trigger] writes[j].0 + writes[j].1.len() <= bound,
    ensures
        file.len() <= len_after(file, writes) <= bound,
        forall|j: int|
            0 <= j < writes.len() ==> #[trigger] writes[j].0 + writes[j].1.len() <= len_after(
                file,
                writes,
            ),
    decreases writes.len(),
{
    if writes.len() > 0 {
        let prev = writes.drop_last();
        assert forall|j: int| 0 <= j < prev.len() implies #[trigger] prev[j].0 + prev[j].1.len()
            <= bound by {
            assert(prev[j] == writes[j]);
        }
        lemma_len_after(file, prev, bound);
        assert forall|j: int|
            0 <= j < writes.len() implies #[trigger] writes[j].0 + writes[j].1.len() <= len_after(
            file,
            writes,
        ) by {
            if j < writes.len() - 1 {
                assert(prev[j] == writes[j]);
            }
        }
    }
}

/// The larger of three integers.
pub open spec fn max3(a: int, b: int, c: int) -> int {
    if a >= b && a >= c {
        a
    } else if b >= c {
        b
    } else {
        c
    }
}

proof fn lemma_plan_facts(key: Seq<u8>, value: Seq<u8>)
    ensures
        storage_plan(key, value).len() == 11,
        forall|k: int|
            0 <= k < 9 ==> #[trigger] storage_plan(key, value)[k] == header_patches()[k],
        storage_plan(key, value)[9] == (KEY_OFFSET as int, key),
        storage_plan(key, value)[10] == (VALUE_OFFSET as int, value),
        forall|k: int| 0 <= k < 11 ==> #[trigger] storage_plan(key, value)[k].0 >= 0,
        forall|k: int|
            0 <= k < 9 ==> #[trigger] header_patches()[k].0 + header_patches()[k].1.len() <= 0x114e,
{
    let plan = storage_plan(key, value);
    assert forall|k: int| 0 <= k < 11 implies #[trigger] plan[k].0 >= 0 by {
        if k < 9 {
            assert(plan[k] == header_patches()[k]);
        }
    }
}

/// The storage file is `STORAGE_LEN` bytes long, or longer where the key or the
/// value reaches past that.
pub proof fn law_storage_len(key: Seq<u8>, value: Seq<u8>)
    ensures
        storage_image_of(key, value).len() == max3(
            STORAGE_LEN as int,
            KEY_OFFSET + key.len(),
            VALUE_OFFSET + value.len(),
        ),
{
    let plan = storage_plan(key, value);
    let bound = max3(STORAGE_LEN as int, KEY_OFFSET + key.len(), VALUE_OFFSET + value.len());
    lemma_plan_facts(key, value);
    assert forall|j: int| 0 <= j < plan.len() implies #[trigger] plan[j].0 + plan[j].1.len()
        <= bound by {
        if j < 9 {
            assert(plan[j] == header_patches()[j]);
        }
    }
    lemma_len_after(zeros(STORAGE_LEN as nat), plan, bound);
    lemma_apply_writes(zeros(STORAGE_LEN as nat), plan);
    assert(plan[9].0 + plan[9].1.len() == KEY_OFFSET + key.len());
    assert(plan[10].0 + plan[10].1.len() == VALUE_OFFSET + value.len());
}

/// Reading the storage file at `VALUE_OFFSET` gives back the value that was written.
pub proof fn law_value_read_back(key: Seq<u8>, value: Seq<u8>)
    ensures
        storage_image_of(key, value).subrange(
            VALUE_OFFSET as int,
            VALUE_OFFSET + value.len(),
        ) == value,
{
    let plan = storage_plan(key, value);
    let file = zeros(STORAGE_LEN as nat);
    let img = storage_image_of(key, value);
    lemma_plan_facts(key, value);
    law_storage_len(key, value);
    lemma_apply_writes(file, plan);
    assert forall|i: int| 0 <= i < value.len() implies #[trigger] img.subrange(
        VALUE_OFFSET as int,
        VALUE_OFFSET + value.len(),
    )[i] == value[i] by {
        let p = VALUE_OFFSET + i;
        assert(covers(plan[10], p));
        lemma_last_cover(file, plan, 10, p);
    }
    assert(img.subrange(VALUE_OFFSET as int, VALUE_OFFSET + value.len()) =~= value);
}

/// Reading the storage file at `KEY_OFFSET` gives back the key that was written,
/// when the key ends before `VALUE_OFFSET` (a longer key is partly overwritten by the value).
pub proof fn law_key_read_back(key: Seq<u8>, value: Seq<u8>)
    requires
        KEY_OFFSET + key.len() <= VALUE_OFFSET || value.len() == 0,
    ensures
        storage_image_of(key, value).subrange(KEY_OFFSET as int, KEY_OFFSET + key.len()) == key,
{
    let plan = storage_plan(key, value);
    let file = zeros(STORAGE_LEN as nat);
    let img = storage_image_of(key, value);
    lemma_plan_facts(key, value);
    law_storage_len(key, value);
    lemma_apply_writes(file, plan);
    assert forall|i: int| 0 <= i < key.len() implies #[trigger] img.subrange(
        KEY_OFFSET as int,
        KEY_OFFSET + key.len(),
    )[i] == key[i] by {
        let p = KEY_OFFSET + i;
        assert(covers(plan[9], p));
        assert(!covers(plan[10], p));
        lemma_last_cover(file, plan, 9, p);
    }
    assert(img.subrange(KEY_OFFSET as int, KEY_OFFSET + key.len()) =~= key);
}

/// The fresh-install header bytes stand in the storage file at their offsets.
pub proof fn law_header_read_back(key: Seq<u8>, value: Seq<u8>, h: int)
    requires
        0 <= h < header_patches().len(),
    ensures
        storage_image_of(key, value).subrange(
            header_patches()[h].0,
            header_patches()[h].0 + header_patches()[h].1.len(),
        ) == header_patches()[h].1,
{
    let plan = storage_plan(key, value);
    let file = zeros(STORAGE_LEN as nat);
    let img = storage_image_of(key, value);
    let hp = header_patches()[h];
    lemma_plan_facts(key, value);
    law_storage_len(key, value);
    lemma_apply_writes(file, plan);
    assert forall|i: int| 0 <= i < hp.1.len() implies #[trigger] img.subrange(
        hp.0,
        hp.0 + hp.1.len(),
    )[i] == hp.1[i] by {
        let p = hp.0 + i;
        assert(plan[h] == hp);
        assert forall|j: int| h < j < plan.len() implies !covers(#[trigger] plan[j], p) by {
            if j < 9 {
                assert(plan[j] == header_patches()[j]);
            }
        }
        lemma_last_cover(file, plan, h, p);
    }
    assert(img.subrange(hp.0, hp.0 + hp.1.len()) =~= hp.1);
}

/// Every byte of the storage file that no write covers is zero.
pub proof fn law_rest_is_zero(key: Seq<u8>, value: Seq<u8>, i: int)
    requires
        0 <= i < storage_image_of(key, value).len(),
        forall|j: int|
            0 <= j < storage_plan(key, value).len() ==> !covers(
                #[trigger] storage_plan(key, value)[j],
                i,
            ),
    ensures
        storage_image_of(key, value)[i] == 0,
{
    let plan = storage_plan(key, value);
    let file = zeros(STORAGE_LEN as nat);
    lemma_plan_facts(key, value);
    law_storage_len(key, value);
    lemma_apply_writes(file, plan);
    lemma_no_cover(file, plan, i);
}

fn one_byte(b: u8) -> (v: Vec<u8>)
    ensures
        v@ == seq![b],
{
    let mut v = Vec::new();
    v.push(b);
    assert(v@ =~= seq![b]);
    v
}

fn header_patch_list() -> (res: Vec<StorageWrite>)
    ensures
        res@.map_values(|w: StorageWrite| w@) == header_patches(),
{
    let mut res: Vec<StorageWrite> = Vec::new();
    let magic = vec![0x53u8, 0x4d, 0x46, 0x43];
    assert(magic@ =~= seq![0x53u8, 0x4du8, 0x46u8, 0x43u8]);
    res.push(StorageWrite { offset: 0x0000, bytes: magic });
    res.push(StorageWrite { offset: 0x0004, bytes: one_byte(0x09) });
    res.push(StorageWrite { offset: 0x1000, bytes: one_byte(0x01) });
    res.push(StorageWrite { offset: 0x1004, bytes: one_byte(0x01) });
    res.push(StorageWrite { offset: 0x1008, bytes: one_byte(0x01) });
    let ones = vec![0xFFu8, 0xFF, 0xFF, 0xFF];
    assert(ones@ =~= seq![0xFFu8, 0xFFu8, 0xFFu8, 0xFFu8]);
    res.push(StorageWrite { offset: 0x1048, bytes: ones });
    res.push(StorageWrite { offset: 0x1148, bytes: one_byte(0x01) });
    res.push(StorageWrite { offset: 0x114c, bytes: one_byte(0x01) });
    res.push(StorageWrite { offset: 0x114d, bytes: one_byte(0x08) });
    assert(res@.map_values(|w: StorageWrite| w@) =~= header_patches());
    res
}

/// The writes that put `key: value` into a fresh storage file, in the order they
/// are made: the fresh-install header bytes, then the key's UTF-8 bytes at
/// `KEY_OFFSET`, then the value's UTF-8 bytes at `VALUE_OFFSET`.
pub fn storage_writes(key: &str, value: &str) -> (res: Vec<StorageWrite>)
    ensures
        res@.map_values(|w: StorageWrite| w@) == storage_plan(key.spec_bytes(), value.spec_bytes()),
{
    let mut res = header_patch_list();
    let ghost header = res@;
    res.push(StorageWrite { offset: KEY_OFFSET, bytes: key.as_bytes_vec() });
    res.push(StorageWrite { offset: VALUE_OFFSET, bytes: value.as_bytes_vec() });
    assert(res@.map_values(|w: StorageWrite| w@) =~= storage_plan(
        key.spec_bytes(),
        value.spec_bytes(),
    )) by {
        assert(res@.subrange(0, 9) =~= header);
        assert forall|k: int| 0 <= k < 9 implies res@.map_values(|w: StorageWrite| w@)[k]
            == header_patches()[k] by {
            assert(res@[k] == header[k]);
            assert(header.map_values(|w: StorageWrite| w@)[k] == header_patches()[k]);
        }
    }
    res
}

/// One step of saving the storage file.
#[derive(Debug)]
pub enum FileOp {
    /// Remove the file and create it anew, empty.
    Recreate,
    /// Set the file's length, cutting it or growing it with zeros.
    SetLen(u64),
    /// Seek to the write's offset and write its bytes.
    Write(StorageWrite),
}

/// A step of saving the storage file, as a value.
pub enum FileStep {
    Recreate,
    SetLen(int),
    Write(int, Seq<u8>),
}

impl View for FileOp {
    type V = FileStep;

    open spec fn view(&self) -> FileStep {
        match self {
            FileOp::Recreate => FileStep::Recreate,
            FileOp::SetLen(n) => FileStep::SetLen(*n as int),
            FileOp::Write(w) => FileStep::Write(w.offset as int, w.bytes@),
        }
    }
}

/// A file after its length is set to `n`: cut to `n` bytes, or grown with zeros.
pub open spec fn set_len(file: Seq<u8>, n: int) -> Seq<u8> {
    Seq::new(n as nat, |i: int| if i < file.len() { file[i] } else { 0u8 })
}

/// A file after one step.
pub open spec fn file_step(file: Seq<u8>, op: FileStep) -> Seq<u8> {
    match op {
        FileStep::Recreate => Seq::empty(),
        FileStep::SetLen(n) => set_len(file, n),
        FileStep::Write(offset, data) => write_at(file, offset, data),
    }
}

/// A file after the steps in order.
pub open spec fn run_steps(file: Seq<u8>, ops: Seq<FileStep>) -> Seq<u8>
    decreases ops.len(),
{
    if ops.len() == 0 {
        file
    } else {
        file_step(run_steps(file, ops.drop_last()), ops.last())
    }
}

/// The writes as steps.
pub open spec fn write_steps(writes: Seq<(int, Seq<u8>)>) -> Seq<FileStep> {
    writes.map_values(|w: (int, Seq<u8>)| FileStep::Write(w.0, w.1))
}

/// Saving the storage file: recreate it empty (holes are not guaranteed to read as
/// zero on the 3DS, so the old file is removed), set its length to `STORAGE_LEN`,
/// then make the writes of `storage_plan`.
pub open spec fn save_steps(key: Seq<u8>, value: Seq<u8>) -> Seq<FileStep> {
    seq![FileStep::Recreate, FileStep::SetLen(STORAGE_LEN as int)] + write_steps(
        storage_plan(key, value),
    )
}

proof fn lemma_run_write_steps(file: Seq<u8>, prefix: Seq<FileStep>, writes: Seq<(int, Seq<u8>)>)
    ensures
        run_steps(file, prefix + write_steps(writes)) == apply_writes(
            run_steps(file, prefix),
            writes,
        ),
    decreases writes.len(),
{
    if writes.len() == 0 {
        assert(prefix + write_steps(writes) =~= prefix);
    } else {
        let all = prefix + write_steps(writes);
        assert(all.drop_last() =~= prefix + write_steps(writes.drop_last()));
        lemma_run_write_steps(file, prefix, writes.drop_last());
    }
}

/// Saving gives the same file whatever was there before: no byte of an earlier
/// file survives, and the result is the storage image of the key and value.
pub proof fn law_save_ignores_prior_file(prior: Seq<u8>, key: Seq<u8>, value: Seq<u8>)
    ensures
        run_steps(prior, save_steps(key, value)) == storage_image_of(key, value),
{
    let prefix = seq![FileStep::Recreate, FileStep::SetLen(STORAGE_LEN as int)];
    lemma_run_write_steps(prior, prefix, storage_plan(key, value));
    assert(prefix.drop_last() =~= seq![FileStep::Recreate]);
    assert(seq![FileStep::Recreate].drop_last() =~= Seq::<FileStep>::empty());
    assert(prefix.last() == FileStep::SetLen(STORAGE_LEN as int));
    assert(seq![FileStep::Recreate].last() == FileStep::Recreate);
    assert(run_steps(prior, Seq::<FileStep>::empty()) == prior);
    assert(run_steps(prior, seq![FileStep::Recreate]) == Seq::<u8>::empty());
    let empty = Seq::<u8>::empty();
    assert(run_steps(prior, prefix) == set_len(empty, STORAGE_LEN as int));
    assert(set_len(empty, STORAGE_LEN as int) =~= zeros(STORAGE_LEN as nat));
}

/// Every save, whatever the key and value, first removes and recreates the file,
/// then sets its length to `STORAGE_LEN`, then makes exactly the header writes, the
/// key's write at `KEY_OFFSET` and the value's write at `VALUE_OFFSET`; no other
/// step resizes or recreates the file.
pub proof fn law_save_starts_from_a_new_file(key: Seq<u8>, value: Seq<u8>)
    ensures
        save_steps(key, value).len() == 13,
        save_steps(key, value)[0] == FileStep::Recreate,
        save_steps(key, value)[1] == FileStep::SetLen(8_433_950),
        forall|k: int|
            2 <= k < 11 ==> #[trigger] save_steps(key, value)[k] == FileStep::Write(
                header_patches()[k - 2].0,
                header_patches()[k - 2].1,
            ),
        save_steps(key, value)[11] == FileStep::Write(0x3000, key),
        save_steps(key, value)[12] == FileStep::Write(0xb000, value),
{
    lemma_plan_facts(key, value);
    let steps = save_steps(key, value);
    let plan = storage_plan(key, value);
    assert(write_steps(plan).len() == 11);
    assert forall|k: int| 2 <= k < 11 implies #[trigger] steps[k] == FileStep::Write(
        header_patches()[k - 2].0,
        header_patches()[k - 2].1,
    ) by {
        assert(steps[k] == write_steps(plan)[k - 2]);
        assert(plan[k - 2] == header_patches()[k - 2]);
    }
    assert(steps[11] == write_steps(plan)[9]);
    assert(steps[12] == write_steps(plan)[10]);
}

/// The steps that save `key: value` into the storage file, in order: recreate the
/// file, set its length to `STORAGE_LEN`, then the writes of `storage_writes`.
pub fn storage_save_ops(key: &str, value: &str) -> (ops: Vec<FileOp>)
    ensures
        ops@.map_values(|o: FileOp| o@) == save_steps(key.spec_bytes(), value.spec_bytes()),
{
    let writes = storage_writes(key, value);
    let ghost plan = storage_plan(key.spec_bytes(), value.spec_bytes());
    let mut ops: Vec<FileOp> = Vec::new();
    ops.push(FileOp::Recreate);
    ops.push(FileOp::SetLen(STORAGE_LEN));
    let mut writes = writes;
    let n = writes.len();
    let mut rest: Vec<StorageWrite> = Vec::new();
    // reverse the writes so that popping yields them in order
    while writes.len() > 0
        invariant
            n == plan.len(),
            writes@.len() + rest@.len() == n,
            forall|k: int| 0 <= k < writes@.len() ==> #[trigger] writes@[k]@ == plan[k],
            forall|k: int| 0 <= k < rest@.len() ==> #[trigger] rest@[k]@ == plan[n - 1 - k],
            ops@.len() == 2,
            ops@.map_values(|o: FileOp| o@) == seq![FileStep::Recreate, FileStep::SetLen(STORAGE_LEN as int)],
        decreases writes@.len(),
    {
        let w = writes.pop().unwrap();
        rest.push(w);
    }
    while rest.len() > 0
        invariant
            n == plan.len(),
            rest@.len() <= n,
            forall|k: int| 0 <= k < rest@.len() ==> #[trigger] rest@[k]@ == plan[n - 1 - k],
            ops@.map_values(|o: FileOp| o@) == seq![FileStep::Recreate, FileStep::SetLen(STORAGE_LEN as int)]
                + write_steps(plan.subrange(0, n - rest@.len())),
        decreases rest@.len(),
    {
        let ghost before = ops@.map_values(|o: FileOp| o@);
        let ghost done = n - rest@.len();
        let w = rest.pop().unwrap();
        assert(w@ == plan[done]);
        ops.push(FileOp::Write(w));
        assert(ops@.map_values(|o: FileOp| o@) =~= seq![FileStep::Recreate, FileStep::SetLen(STORAGE_LEN as int)]
            + write_steps(plan.subrange(0, done + 1))) by {
            assert(ops@.map_values(|o: FileOp| o@) =~= before.push(FileStep::Write(plan[done].0, plan[done].1)));
        }
    }
    assert(plan.subrange(0, n as int) =~= plan);
    ops
}

/// Seek to `offset` in `file` and write `data`, growing the file with zeros as needed.
fn write_into(file: &mut Vec<u8>, offset: usize, data: &[u8])
    requires
        offset + data@.len() <= usize::MAX,
    ensures
        final(file)@ == write_at(old(file)@, offset as int, data@),
{
    let ghost f0 = file@;
    while file.len() < offset
        invariant
            f0.len() <= file@.len() <= offset || file@.len() == f0.len(),
            forall|i: int| 0 <= i < file@.len() ==> #[trigger] file@[i] == if i < f0.len() {
                f0[i]
            } else {
                0u8
            },
        decreases offset - file@.len(),
    {
        file.push(0);
    }
    let ghost f1 = file@;
    let n = data.len();
    let mut i: usize = 0;
    while i < n
        invariant
            n == data@.len(),
            offset + n <= usize::MAX,
            i <= n,
            f1.len() >= offset,
            f1.len() == if offset > f0.len() {
                offset as int
            } else {
                f0.len() as int
            },
            forall|j: int| 0 <= j < f1.len() ==> #[trigger] f1[j] == if j < f0.len() {
                f0[j]
            } else {
                0u8
            },
            file@.len() == if offset + i > f1.len() {
                offset + i
            } else {
                f1.len() as int
            },
            forall|j: int|
                0 <= j < file@.len() ==> #[trigger] file@[j] == if offset <= j < offset + i {
                    data@[j - offset]
                } else {
                    f1[j]
                },
        decreases n - i,
    {
        if offset + i < file.len() {
            file.set(offset + i, data[i]);
        } else {
            file.push(data[i]);
        }
        i = i + 1;
    }
    assert(file@ =~= write_at(f0, offset as int, data@));
}

/// Create `largeStorage.bin` for OLV with `key: value` saved in localStorage:
/// the bytes of a zeroed file of `STORAGE_LEN` bytes after `storage_writes(key, value)`.
pub fn storage_image(key: &str, value: &str) -> (res: Vec<u8>)
    requires
        KEY_OFFSET + key.spec_bytes().len() <= usize::MAX,
        VALUE_OFFSET + value.spec_bytes().len() <= usize::MAX,
    ensures
        res@ == storage_image_of(key.spec_bytes(), value.spec_bytes()),
{
    let writes = storage_writes(key, value);
    let ghost plan = storage_plan(key.spec_bytes(), value.spec_bytes());
    let mut file: Vec<u8> = Vec::new();
    let len = STORAGE_LEN as usize;
    while file.len() < len
        invariant
            len == STORAGE_LEN,
            file@.len() <= len,
            forall|i: int| 0 <= i < file@.len() ==> #[trigger] file@[i] == 0u8,
        decreases len - file@.len(),
    {
        file.push(0);
    }
    assert(file@ =~= zeros(STORAGE_LEN as nat));
    let count = writes.len();
    assert(writes@.map_values(|w: StorageWrite| w@).len() == 11);
    let mut k: usize = 0;
    while k < count
        invariant
            count == writes@.len(),
            count == 11,
            writes@.map_values(|w: StorageWrite| w@) == plan,
            plan == storage_plan(key.spec_bytes(), value.spec_bytes()),
            KEY_OFFSET + key.spec_bytes().len() <= usize::MAX,
            VALUE_OFFSET + value.spec_bytes().len() <= usize::MAX,
            k <= count,
            file@ == apply_writes(zeros(STORAGE_LEN as nat), plan.subrange(0, k as int)),
        decreases count - k,
    {
        let w = &writes[k];
        assert(plan[k as int] == w@);
        assert(w.offset <= VALUE_OFFSET);
        assert(w.offset + w.bytes@.len() <= usize::MAX) by {
            if k < 9 {
                assert(header_patches()[k as int] == plan[k as int]);
            } else if k == 9 {
                assert(plan[9] == (KEY_OFFSET as int, key.spec_bytes()));
            } else {
                assert(plan[10] == (VALUE_OFFSET as int, value.spec_bytes()));
            }
        }
        write_into(&mut file, w.offset as usize, w.bytes.as_slice());
        proof {
            let next = plan.subrange(0, k + 1);
            assert(next.drop_last() =~= plan.subrange(0, k as int));
            assert(next.last() == plan[k as int]);
        }
        k = k + 1;
    }
    assert(plan.subrange(0, 11) =~= plan);
    file
}

} // verus!
