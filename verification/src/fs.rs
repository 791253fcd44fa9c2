use vstd::prelude::*;
use vstd::string::StringSliceAdditionalSpecFns;
use vstd::utf8::encode_utf8;
use crate::text::byte_len;

verus! {

broadcast use vstd::utf8::encode_utf8_decode_utf8;

/// Most files the RAM filesystem holds.
pub const MAX_FILES: usize = 64;

/// Longest file name, in bytes.
pub const MAX_FILE_NAME_LEN: usize = 32;

/// Largest file content, in bytes.
pub const MAX_FILE_SIZE: usize = 2048;

/// Bytes allowed in a file name: ASCII letters, digits, `_`, `-` and `.`.
pub open spec fn name_byte_ok(b: u8) -> bool {
    (0x61 <= b <= 0x7A) || (0x41 <= b <= 0x5A) || (0x30 <= b <= 0x39) || b == 0x5F || b == 0x2D
        || b == 0x2E
}

/// A valid file name: 1 to 32 bytes, each allowed.
pub open spec fn valid_name_bytes(bytes: Seq<u8>) -> bool {
    0 < bytes.len() <= MAX_FILE_NAME_LEN && forall|i: int|
        0 <= i < bytes.len() ==> name_byte_ok(#[trigger] bytes[i])
}

/// Whether two texts are equal, by their bytes.
pub fn str_eq(a: &str, b: &str) -> (r: bool)
    ensures
        r == (a@ == b@),
{
    let x = a.as_bytes();
    let y = b.as_bytes();
    proof {
        vstd::utf8::encode_utf8_decode_utf8(a@);
        vstd::utf8::encode_utf8_decode_utf8(b@);
    }
    if x.len() != y.len() {
        return false;
    }
    let mut i: usize = 0;
    while i < x.len()
        invariant
            x@ == a.spec_bytes(),
            y@ == b.spec_bytes(),
            x@.len() == y@.len(),
            i <= x@.len(),
            forall|k: int| 0 <= k < i ==> x@[k] == y@[k],
        decreases x@.len() - i,
    {
        if x[i] != y[i] {
            return false;
        }
        i += 1;
    }
    assert(x@ =~= y@);
    true
}

pub fn is_valid_name(name: &str) -> (r: bool)
    ensures
        r == valid_name_bytes(name.spec_bytes()),
{
    let bytes = name.as_bytes();
    if bytes.len() == 0 || bytes.len() > MAX_FILE_NAME_LEN {
        return false;
    }
    let mut i: usize = 0;
    while i < bytes.len()
        invariant
            bytes@ == name.spec_bytes(),
            i <= bytes@.len(),
            forall|k: int| 0 <= k < i ==> name_byte_ok(#[trigger] bytes@[k]),
        decreases bytes@.len() - i,
    {
        let b = bytes[i];
        let ok = (0x61 <= b && b <= 0x7A) || (0x41 <= b && b <= 0x5A) || (0x30 <= b && b <= 0x39)
            || b == 0x5F || b == 0x2D || b == 0x2E;
        if !ok {
            return false;
        }
        i += 1;
    }
    true
}

struct FileEntry {
    name: String,
    contents: String,
}

/// A file as the listing shows it: name and size in bytes.
#[derive(Debug, Clone)]
pub struct FileInfo {
    pub name: String,
    pub size: usize,
}

/// Usage figures of the filesystem.
#[derive(Debug, Clone, Copy)]
pub struct FsStats {
    pub file_count: usize,
    pub total_bytes: usize,
    pub max_files: usize,
    pub max_file_size: usize,
}

/// A file's name and contents, as texts.
pub ghost struct FileModel {
    pub name: Seq<char>,
    pub contents: Seq<char>,
}

/// The volatile RAM filesystem: a flat list of named text files, in the
/// order they were created.
pub struct FileSystem {
    files: Vec<FileEntry>,
}

impl View for FileSystem {
    type V = Seq<FileModel>;

    closed spec fn view(&self) -> Seq<FileModel> {
        Seq::new(
            self.files@.len(),
            |i: int| FileModel { name: self.files@[i].name@, contents: self.files@[i].contents@ },
        )
    }
}

/// Position of the file called `name`, if any.
pub open spec fn find_spec(files: Seq<FileModel>, name: Seq<char>) -> Option<int> {
    if exists|i: int| 0 <= i < files.len() && (#[trigger] files[i]).name == name {
        Some(choose|i: int| 0 <= i < files.len() && (#[trigger] files[i]).name == name)
    } else {
        None
    }
}

/// The filesystem's invariant: at most 64 files, distinct valid names,
/// contents within the size limit.
pub open spec fn fs_wf(files: Seq<FileModel>) -> bool {
    &&& files.len() <= MAX_FILES
    &&& forall|i: int, j: int|
        0 <= i < files.len() && 0 <= j < files.len() && i != j ==> #[trigger] files[i].name
            != #[trigger] files[j].name
    &&& forall|i: int| 0 <= i < files.len() ==> valid_name_bytes(encode_utf8(#[trigger] files[i].name))
    &&& forall|i: int| 0 <= i < files.len() ==> byte_len(#[trigger] files[i].contents) <= MAX_FILE_SIZE
}

/// Sum of the sizes of the first `n` files.
pub open spec fn total_size(files: Seq<FileModel>, n: int) -> nat
    decreases n,
{
    if n <= 0 {
        0
    } else {
        total_size(files, n - 1) + byte_len(files[n - 1].contents)
    }
}

impl FileSystem {
    pub fn new() -> (fs: FileSystem)
        ensures
            fs@ == Seq::<FileModel>::empty(),
    {
        FileSystem { files: Vec::new() }
    }

    fn find(&self, name: &str) -> (r: Option<usize>)
        requires
            fs_wf(self@),
        ensures
            match r {
                Some(i) => find_spec(self@, name@) == Some(i as int),
                None => find_spec(self@, name@) is None,
            },
    {
        let n = self.files.len();
        let mut i: usize = 0;
        while i < n
            invariant
                i <= n,
                n == self@.len(),
                fs_wf(self@),
                forall|k: int| 0 <= k < i ==> (#[trigger] self@[k]).name != name@,
            decreases n - i,
        {
            if str_eq(self.files[i].name.as_str(), name) {
                proof {
                    let f = self@;
                    assert(f[i as int].name == name@);
                    assert(exists|k: int| 0 <= k < f.len() && (#[trigger] f[k]).name == name@);
                    let c = choose|k: int| 0 <= k < f.len() && (#[trigger] f[k]).name == name@;
                    if c != i {
                        assert(f[c].name != f[i as int].name);
                    }
                }
                return Some(i);
            }
            i += 1;
        }
        None
    }
}

pub open spec fn create_spec(files: Seq<FileModel>, name: Seq<char>) -> (Seq<FileModel>, Result<(), &'static str>) {
    if !valid_name_bytes(encode_utf8(name)) {
        (files, Err("invalid file name"))
    } else if find_spec(files, name) is Some {
        (files, Err("file already exists"))
    } else if files.len() >= MAX_FILES {
        (files, Err("file table is full"))
    } else {
        (files.push(FileModel { name, contents: Seq::empty() }), Ok(()))
    }
}

pub open spec fn delete_spec(files: Seq<FileModel>, name: Seq<char>) -> (Seq<FileModel>, Result<(), &'static str>) {
    match find_spec(files, name) {
        None => (files, Err("file not found")),
        Some(i) => (files.remove(i), Ok(())),
    }
}

pub open spec fn write_spec(files: Seq<FileModel>, name: Seq<char>, content: Seq<char>) -> (Seq<FileModel>, Result<(), &'static str>) {
    if byte_len(content) > MAX_FILE_SIZE {
        (files, Err("content too large"))
    } else {
        match find_spec(files, name) {
            None => (files, Err("file not found")),
            Some(i) => (files.update(i, FileModel { contents: content, ..files[i] }), Ok(())),
        }
    }
}

pub open spec fn read_spec(files: Seq<FileModel>, name: Seq<char>) -> Result<Seq<char>, &'static str> {
    match find_spec(files, name) {
        None => Err("file not found"),
        Some(i) => Ok(files[i].contents),
    }
}

/// Creates an empty file. Fails on an invalid name, an existing name or a
/// full file table, in that order of checking.
pub fn create_file(fs: &mut FileSystem, name: &str) -> (r: Result<(), &'static str>)
    requires
        fs_wf(old(fs)@),
    ensures
        (final(fs)@, r) == create_spec(old(fs)@, name@),
        fs_wf(final(fs)@),
{
    if !is_valid_name(name) {
        return Err("invalid file name");
    }
    if fs.find(name).is_some() {
        return Err("file already exists");
    }
    if fs.files.len() >= MAX_FILES {
        return Err("file table is full");
    }
    let ghost old_files = fs@;
    fs.files.push(FileEntry { name: name.to_owned(), contents: String::new() });
    proof {
        let f = fs@;
        assert(f =~= old_files.push(FileModel { name: name@, contents: Seq::empty() }));
        assert forall|i: int, j: int|
            0 <= i < f.len() && 0 <= j < f.len() && i != j implies #[trigger] f[i].name
            != #[trigger] f[j].name by {
            if i < old_files.len() && j < old_files.len() {
                assert(old_files[i].name != old_files[j].name);
            } else if i < old_files.len() {
                assert(old_files[i].name != name@);
            } else {
                assert(old_files[j].name != name@);
            }
        }
        assert(encode_utf8(Seq::<char>::empty()) =~= Seq::<u8>::empty());
    }
    Ok(())
}

/// Deletes the file called `name`.
pub fn delete_file(fs: &mut FileSystem, name: &str) -> (r: Result<(), &'static str>)
    requires
        fs_wf(old(fs)@),
    ensures
        (final(fs)@, r) == delete_spec(old(fs)@, name@),
        fs_wf(final(fs)@),
{
    let idx = match fs.find(name) {
        Some(i) => i,
        None => {
            return Err("file not found");
        },
    };
    let ghost old_files = fs@;
    fs.files.remove(idx);
    proof {
        let f = fs@;
        assert(f =~= old_files.remove(idx as int));
        assert forall|i: int, j: int|
            0 <= i < f.len() && 0 <= j < f.len() && i != j implies #[trigger] f[i].name
            != #[trigger] f[j].name by {
            let oi = if i < idx { i } else { i + 1 };
            let oj = if j < idx { j } else { j + 1 };
            assert(old_files[oi].name != old_files[oj].name);
        }
        assert forall|i: int| 0 <= i < f.len() implies valid_name_bytes(encode_utf8(#[trigger] f[i].name)) by {
            let oi = if i < idx { i } else { i + 1 };
            assert(f[i] == old_files[oi]);
        }
        assert forall|i: int| 0 <= i < f.len() implies byte_len(#[trigger] f[i].contents) <= MAX_FILE_SIZE by {
            let oi = if i < idx { i } else { i + 1 };
            assert(f[i] == old_files[oi]);
        }
    }
    Ok(())
}

/// Replaces the contents of the file called `name` with `content`, which may
/// be at most 2048 bytes.
pub fn write_file(fs: &mut FileSystem, name: &str, content: &str) -> (r: Result<(), &'static str>)
    requires
        fs_wf(old(fs)@),
    ensures
        (final(fs)@, r) == write_spec(old(fs)@, name@, content@),
        fs_wf(final(fs)@),
{
    if content.as_bytes().len() > MAX_FILE_SIZE {
        return Err("content too large");
    }
    let idx = match fs.find(name) {
        Some(i) => i,
        None => {
            return Err("file not found");
        },
    };
    let ghost old_files = fs@;
    let entry_name = fs.files[idx].name.clone();
    fs.files.set(idx, FileEntry { name: entry_name, contents: content.to_owned() });
    proof {
        let f = fs@;
        assert(f =~= old_files.update(idx as int, FileModel { contents: content@, ..old_files[idx as int] }));
        assert forall|i: int, j: int|
            0 <= i < f.len() && 0 <= j < f.len() && i != j implies #[trigger] f[i].name
            != #[trigger] f[j].name by {
            assert(old_files[i].name != old_files[j].name);
        }
        assert forall|i: int| 0 <= i < f.len() implies valid_name_bytes(encode_utf8(#[trigger] f[i].name)) by {
            assert(f[i].name == old_files[i].name);
        }
        assert forall|i: int| 0 <= i < f.len() implies byte_len(#[trigger] f[i].contents) <= MAX_FILE_SIZE by {
            if i != idx {
                assert(f[i] == old_files[i]);
            }
        }
    }
    Ok(())
}

/// The contents of the file called `name`.
pub fn read_file(fs: &FileSystem, name: &str) -> (r: Result<String, &'static str>)
    requires
        fs_wf(fs@),
    ensures
        match (r, read_spec(fs@, name@)) {
            (Ok(s), Ok(c)) => s@ == c,
            (Err(e), Err(f)) => e == f,
            _ => false,
        },
{
    let idx = match fs.find(name) {
        Some(i) => i,
        None => {
            return Err("file not found");
        },
    };
    Ok(fs.files[idx].contents.clone())
}

pub open spec fn info_matches(info: FileInfo, f: FileModel) -> bool {
    info.name@ == f.name && info.size == byte_len(f.contents)
}

/// Name and size of every file, in creation order.
pub fn list_files(fs: &FileSystem) -> (list: Vec<FileInfo>)
    requires
        fs_wf(fs@),
    ensures
        list@.len() == fs@.len(),
        forall|i: int| 0 <= i < fs@.len() ==> info_matches(#[trigger] list@[i], fs@[i]),
{
    let mut list: Vec<FileInfo> = Vec::new();
    let n = fs.files.len();
    let mut i: usize = 0;
    while i < n
        invariant
            i <= n,
            n == fs@.len(),
            fs_wf(fs@),
            list@.len() == i,
            forall|k: int| 0 <= k < i ==> info_matches(#[trigger] list@[k], fs@[k]),
        decreases n - i,
    {
        let entry = &fs.files[i];
        let size = entry.contents.as_str().len();
        list.push(FileInfo { name: entry.name.clone(), size });
        i += 1;
    }
    list
}

/// Byte-wise lexicographic order, the order `String`'s `Ord` puts texts in.
pub open spec fn bytes_le(a: Seq<u8>, b: Seq<u8>) -> bool
    decreases a.len(),
{
    if a.len() == 0 {
        true
    } else if b.len() == 0 {
        false
    } else if a[0] != b[0] {
        a[0] < b[0]
    } else {
        bytes_le(a.drop_first(), b.drop_first())
    }
}

/// `a` comes no later than `b` in a listing sorted by name.
pub open spec fn name_le(a: FileInfo, b: FileInfo) -> bool {
    bytes_le(encode_utf8(a.name@), encode_utf8(b.name@))
}

pub open spec fn sorted_by_name(s: Seq<FileInfo>) -> bool {
    forall|i: int, j: int| 0 <= i < j < s.len() ==> name_le(#[trigger] s[i], #[trigger] s[j])
}

proof fn lemma_bytes_le_total(a: Seq<u8>, b: Seq<u8>)
    ensures
        bytes_le(a, b) || bytes_le(b, a),
    decreases a.len(),
{
    if a.len() > 0 && b.len() > 0 && a[0] == b[0] {
        lemma_bytes_le_total(a.drop_first(), b.drop_first());
    }
}

proof fn lemma_bytes_le_trans(a: Seq<u8>, b: Seq<u8>, c: Seq<u8>)
    requires
        bytes_le(a, b),
        bytes_le(b, c),
    ensures
        bytes_le(a, c),
    decreases a.len(),
{
    if a.len() > 0 && b.len() > 0 && c.len() > 0 && a[0] == b[0] && b[0] == c[0] {
        lemma_bytes_le_trans(a.drop_first(), b.drop_first(), c.drop_first());
    }
}

/// Whether `a` sorts no later than `b`, comparing the names' bytes.
fn name_le_exec(a: &String, b: &String) -> (r: bool)
    ensures
        r == bytes_le(encode_utf8(a@), encode_utf8(b@)),
{
    let x = a.as_str().as_bytes();
    let y = b.as_str().as_bytes();
    let ghost xs = encode_utf8(a@);
    let ghost ys = encode_utf8(b@);
    let mut i: usize = 0;
    assert(xs.skip(0) =~= xs);
    assert(ys.skip(0) =~= ys);
    while i < x.len() && i < y.len()
        invariant
            x@ == xs,
            y@ == ys,
            xs == encode_utf8(a@),
            ys == encode_utf8(b@),
            i <= x@.len(),
            i <= y@.len(),
            bytes_le(xs, ys) == bytes_le(xs.skip(i as int), ys.skip(i as int)),
        decreases x@.len() - i,
    {
        if x[i] != y[i] {
            let ghost a = xs.skip(i as int);
            let ghost b = ys.skip(i as int);
            assert(a.len() > 0 && b.len() > 0);
            assert(a[0] == x@[i as int] && b[0] == y@[i as int]);
            assert(bytes_le(a, b) == (a[0] < b[0]));
            return x[i] < y[i];
        }
        assert(xs.skip(i as int).drop_first() =~= xs.skip(i as int + 1));
        assert(ys.skip(i as int).drop_first() =~= ys.skip(i as int + 1));
        i += 1;
    }
    x.len() <= y.len()
}

/// The listing sorted by name, as `ls` shows it (names compared byte by byte,
/// as `String`'s order does).
pub fn sort_by_name(files: Vec<FileInfo>) -> (sorted: Vec<FileInfo>)
    ensures
        sorted@.to_multiset() == files@.to_multiset(),
        sorted_by_name(sorted@),
{
    broadcast use vstd::seq_lib::to_multiset_len, vstd::multiset::lemma_multiset_empty_len;
    broadcast use vstd::multiset::group_multiset_axioms;

    let mut out: Vec<FileInfo> = Vec::new();
    let mut rest = files;
    let ghost all = rest@.to_multiset();
    assert(out@.to_multiset().len() == 0);
    assert(out@.to_multiset().add(rest@.to_multiset()) =~= all);
    while rest.len() > 0
        invariant
            out@.to_multiset().add(rest@.to_multiset()) == all,
            sorted_by_name(out@),
        decreases rest@.len(),
    {
        let ghost before_rest = rest@;
        let x = match rest.pop() {
            Some(v) => v,
            None => {
                return out;
            },
        };
        proof {
            assert(before_rest =~= rest@.push(x));
        }
        let mut k: usize = 0;
        while k < out.len() && name_le_exec(&out[k].name, &x.name)
            invariant
                k <= out@.len(),
                forall|p: int| 0 <= p < k ==> name_le(#[trigger] out@[p], x),
            decreases out@.len() - k,
        {
            k += 1;
        }
        proof {
            if k < out@.len() {
                lemma_bytes_le_total(encode_utf8(out@[k as int].name@), encode_utf8(x.name@));
                assert forall|j: int| k <= j < out@.len() implies name_le(x, #[trigger] out@[j]) by {
                    if j > k {
                        lemma_bytes_le_trans(
                            encode_utf8(x.name@),
                            encode_utf8(out@[k as int].name@),
                            encode_utf8(out@[j].name@),
                        );
                    }
                }
            }
        }
        let ghost before_out = out@;
        out.insert(k, x);
        proof {
            assert(out@ == before_out.insert(k as int, x));
            vstd::seq_lib::to_multiset_insert(before_out, k as int, x);
            vstd::seq_lib::to_multiset_build(rest@, x);
            assert forall|p: int, q: int| 0 <= p < q < out@.len() implies name_le(
                #[trigger] out@[p],
                #[trigger] out@[q],
            ) by {
                if p < k && q > k {
                    lemma_bytes_le_trans(
                        encode_utf8(out@[p].name@),
                        encode_utf8(x.name@),
                        encode_utf8(out@[q].name@),
                    );
                }
            }
            assert(out@.to_multiset().add(rest@.to_multiset()) =~= before_out.to_multiset().add(
                before_rest.to_multiset(),
            ));
        }
    }
    assert(rest@.to_multiset().len() == 0);
    assert(out@.to_multiset().add(rest@.to_multiset()) =~= out@.to_multiset());
    out
}

pub open spec fn stats_spec(files: Seq<FileModel>) -> FsStats {
    FsStats {
        file_count: files.len() as usize,
        total_bytes: total_size(files, files.len() as int) as usize,
        max_files: MAX_FILES,
        max_file_size: MAX_FILE_SIZE,
    }
}

proof fn lemma_total_size_bound(files: Seq<FileModel>, n: int)
    requires
        fs_wf(files),
        0 <= n <= files.len(),
    ensures
        total_size(files, n) <= n * MAX_FILE_SIZE,
    decreases n,
{
    if n > 0 {
        lemma_total_size_bound(files, n - 1);
    }
}

/// Number of files, total bytes stored and the limits. (The total is summed
/// with saturation; within the limits it cannot saturate.)
pub fn stats(fs: &FileSystem) -> (st: FsStats)
    requires
        fs_wf(fs@),
    ensures
        st == stats_spec(fs@),
{
    let n = fs.files.len();
    let mut total_bytes: usize = 0;
    let mut i: usize = 0;
    while i < n
        invariant
            i <= n,
            n == fs@.len(),
            fs_wf(fs@),
            total_bytes == total_size(fs@, i as int),
        decreases n - i,
    {
        proof {
            lemma_total_size_bound(fs@, i as int + 1);
        }
        let size = fs.files[i].contents.as_str().len();
        total_bytes = total_bytes.saturating_add(size);
        i += 1;
    }
    FsStats { file_count: n, total_bytes, max_files: MAX_FILES, max_file_size: MAX_FILE_SIZE }
}

} // verus!

verus! {

// ---------------------------------------------------------------------------
// Laws of the filesystem

proof fn lemma_find_at(files: Seq<FileModel>, i: int)
    requires
        fs_wf(files),
        0 <= i < files.len(),
    ensures
        find_spec(files, files[i].name) == Some(i),
{
    let n = files[i].name;
    assert(exists|k: int| 0 <= k < files.len() && (#[trigger] files[k]).name == n);
    let c = choose|k: int| 0 <= k < files.len() && (#[trigger] files[k]).name == n;
    if c != i {
        assert(files[c].name != files[i].name);
    }
}

/// Reading a file gives back what was last written to it.
pub proof fn law_read_after_write(files: Seq<FileModel>, name: Seq<char>, content: Seq<char>)
    requires
        fs_wf(files),
        write_spec(files, name, content).1 is Ok,
    ensures
        read_spec(write_spec(files, name, content).0, name) == Ok::<Seq<char>, &'static str>(
            content,
        ),
{
    let i = find_spec(files, name).unwrap();
    let f2 = write_spec(files, name, content).0;
    assert(f2[i].name == name);
    assert(fs_wf(f2)) by {
        assert forall|a: int, b: int|
            0 <= a < f2.len() && 0 <= b < f2.len() && a != b implies #[trigger] f2[a].name
            != #[trigger] f2[b].name by {
            assert(files[a].name != files[b].name);
        }
        assert forall|a: int| 0 <= a < f2.len() implies valid_name_bytes(encode_utf8(#[trigger] f2[a].name)) by {
            assert(f2[a].name == files[a].name);
        }
        assert forall|a: int| 0 <= a < f2.len() implies byte_len(#[trigger] f2[a].contents) <= MAX_FILE_SIZE by {
            if a != i {
                assert(f2[a] == files[a]);
            }
        }
    }
    lemma_find_at(f2, i);
}

/// Writing one file leaves what every other file reads unchanged.
pub proof fn law_write_leaves_others(
    files: Seq<FileModel>,
    name: Seq<char>,
    content: Seq<char>,
    other: Seq<char>,
)
    requires
        fs_wf(files),
        other != name,
    ensures
        read_spec(write_spec(files, name, content).0, other) == read_spec(files, other),
{
    let f2 = write_spec(files, name, content).0;
    if write_spec(files, name, content).1 is Ok {
        let i = find_spec(files, name).unwrap();
        assert forall|k: int| 0 <= k < f2.len() implies (#[trigger] f2[k]).name == files[k].name
            && (k != i ==> f2[k] == files[k]) by {}
        if find_spec(files, other) is Some {
            let j = find_spec(files, other).unwrap();
            assert(j != i);
            assert(f2[j] == files[j]);
            assert(exists|k: int| 0 <= k < f2.len() && (#[trigger] f2[k]).name == other);
            let c = choose|k: int| 0 <= k < f2.len() && (#[trigger] f2[k]).name == other;
            if c != j {
                assert(files[c].name != files[j].name);
            }
        } else {
            if exists|k: int| 0 <= k < f2.len() && (#[trigger] f2[k]).name == other {
                let k = choose|k: int| 0 <= k < f2.len() && (#[trigger] f2[k]).name == other;
                assert(files[k].name == other);
            }
        }
    }
}

/// A newly created file reads as empty.
pub proof fn law_created_file_is_empty(files: Seq<FileModel>, name: Seq<char>)
    requires
        fs_wf(files),
        create_spec(files, name).1 is Ok,
    ensures
        read_spec(create_spec(files, name).0, name) == Ok::<Seq<char>, &'static str>(
            Seq::empty(),
        ),
{
    let f2 = create_spec(files, name).0;
    let i = files.len() as int;
    assert(f2[i].name == name);
    assert forall|a: int, b: int|
        0 <= a < f2.len() && 0 <= b < f2.len() && a != b implies #[trigger] f2[a].name
        != #[trigger] f2[b].name by {
        if a < i && b < i {
            assert(files[a].name != files[b].name);
        } else if a < i {
            assert(files[a].name != name);
        } else {
            assert(files[b].name != name);
        }
    }
    assert(encode_utf8(Seq::<char>::empty()) =~= Seq::<u8>::empty());
    assert(fs_wf(f2));
    lemma_find_at(f2, i);
}

/// A deleted file can no longer be read.
pub proof fn law_deleted_file_is_gone(files: Seq<FileModel>, name: Seq<char>)
    requires
        fs_wf(files),
    ensures
        read_spec(delete_spec(files, name).0, name) == Err::<Seq<char>, &'static str>(
            "file not found",
        ),
{
    let f2 = delete_spec(files, name).0;
    if find_spec(files, name) is Some {
        let i = find_spec(files, name).unwrap();
        if exists|k: int| 0 <= k < f2.len() && (#[trigger] f2[k]).name == name {
            let k = choose|k: int| 0 <= k < f2.len() && (#[trigger] f2[k]).name == name;
            let ok = if k < i { k } else { k + 1 };
            assert(f2[k] == files[ok]);
            assert(files[ok].name != files[i].name);
        }
    }
}

/// Two files never share a name: creating a file under an existing name
/// fails and changes nothing.
pub proof fn law_names_unique(files: Seq<FileModel>, name: Seq<char>)
    requires
        fs_wf(files),
        valid_name_bytes(encode_utf8(name)),
        exists|k: int| 0 <= k < files.len() && (#[trigger] files[k]).name == name,
    ensures
        create_spec(files, name) == (files, Err::<(), &'static str>("file already exists")),
{
}


// ---------------------------------------------------------------------------
// Laws over sequences of calls

/// A call that changes the filesystem, for laws about runs of calls.
pub ghost enum FsOp {
    Create(Seq<char>),
    Delete(Seq<char>),
    Write(Seq<char>, Seq<char>),
}

/// The files after one call (whether it succeeded or not).
pub open spec fn apply_op(files: Seq<FileModel>, op: FsOp) -> Seq<FileModel> {
    match op {
        FsOp::Create(n) => create_spec(files, n).0,
        FsOp::Delete(n) => delete_spec(files, n).0,
        FsOp::Write(n, c) => write_spec(files, n, c).0,
    }
}

/// The files after the calls `ops`, in order.
pub open spec fn apply_ops(files: Seq<FileModel>, ops: Seq<FsOp>) -> Seq<FileModel>
    decreases ops.len(),
{
    if ops.len() == 0 {
        files
    } else {
        apply_ops(apply_op(files, ops[0]), ops.drop_first())
    }
}

/// The call writes or deletes the file called `n`.
pub open spec fn writes_or_deletes(op: FsOp, n: Seq<char>) -> bool {
    match op {
        FsOp::Create(_) => false,
        FsOp::Delete(m) => m == n,
        FsOp::Write(m, _) => m == n,
    }
}

/// The call names the file called `n` at all.
pub open spec fn names_file(op: FsOp, n: Seq<char>) -> bool {
    match op {
        FsOp::Create(m) => m == n,
        FsOp::Delete(m) => m == n,
        FsOp::Write(m, _) => m == n,
    }
}

proof fn lemma_wf_create(files: Seq<FileModel>, name: Seq<char>)
    requires
        fs_wf(files),
    ensures
        fs_wf(create_spec(files, name).0),
{
    if create_spec(files, name).1 is Ok {
        let f2 = create_spec(files, name).0;
        let i = files.len() as int;
        assert forall|a: int, b: int|
            0 <= a < f2.len() && 0 <= b < f2.len() && a != b implies #[trigger] f2[a].name
            != #[trigger] f2[b].name by {
            if a < i && b < i {
                assert(files[a].name != files[b].name);
            } else if a < i {
                assert(files[a].name != name);
            } else {
                assert(files[b].name != name);
            }
        }
        assert(encode_utf8(Seq::<char>::empty()) =~= Seq::<u8>::empty());
    }
}

proof fn lemma_wf_delete(files: Seq<FileModel>, name: Seq<char>)
    requires
        fs_wf(files),
    ensures
        fs_wf(delete_spec(files, name).0),
{
    if find_spec(files, name) is Some {
        let i = find_spec(files, name).unwrap();
        let f2 = files.remove(i);
        assert forall|a: int, b: int|
            0 <= a < f2.len() && 0 <= b < f2.len() && a != b implies #[trigger] f2[a].name
            != #[trigger] f2[b].name by {
            let oa = if a < i { a } else { a + 1 };
            let ob = if b < i { b } else { b + 1 };
            assert(f2[a] == files[oa] && f2[b] == files[ob]);
            assert(files[oa].name != files[ob].name);
        }
        assert forall|a: int| 0 <= a < f2.len() implies valid_name_bytes(
            encode_utf8(#[trigger] f2[a].name),
        ) && byte_len(f2[a].contents) <= MAX_FILE_SIZE by {
            let oa = if a < i { a } else { a + 1 };
            assert(f2[a] == files[oa]);
        }
    }
}

proof fn lemma_wf_write(files: Seq<FileModel>, name: Seq<char>, content: Seq<char>)
    requires
        fs_wf(files),
    ensures
        fs_wf(write_spec(files, name, content).0),
{
    if write_spec(files, name, content).1 is Ok {
        let i = find_spec(files, name).unwrap();
        let f2 = write_spec(files, name, content).0;
        assert forall|a: int, b: int|
            0 <= a < f2.len() && 0 <= b < f2.len() && a != b implies #[trigger] f2[a].name
            != #[trigger] f2[b].name by {
            assert(files[a].name != files[b].name);
        }
        assert forall|a: int| 0 <= a < f2.len() implies valid_name_bytes(
            encode_utf8(#[trigger] f2[a].name),
        ) by {
            assert(f2[a].name == files[a].name);
        }
        assert forall|a: int| 0 <= a < f2.len() implies byte_len(#[trigger] f2[a].contents)
            <= MAX_FILE_SIZE by {
            if a != i {
                assert(f2[a] == files[a]);
            }
        }
    }
}

proof fn lemma_wf_op(files: Seq<FileModel>, op: FsOp)
    requires
        fs_wf(files),
    ensures
        fs_wf(apply_op(files, op)),
{
    match op {
        FsOp::Create(n) => lemma_wf_create(files, n),
        FsOp::Delete(n) => lemma_wf_delete(files, n),
        FsOp::Write(n, c) => lemma_wf_write(files, n, c),
    }
}

/// Reading `other` sees the same file in `f2` as in `files` when the files
/// of that name in the two correspond.
proof fn lemma_read_same(files: Seq<FileModel>, f2: Seq<FileModel>, other: Seq<char>)
    requires
        fs_wf(files),
        fs_wf(f2),
        forall|k: int| 0 <= k < f2.len() && (#[trigger] f2[k]).name == other ==> files.contains(f2[k]),
        forall|j: int| 0 <= j < files.len() && (#[trigger] files[j]).name == other ==> f2.contains(files[j]),
    ensures
        read_spec(f2, other) == read_spec(files, other),
{
    if find_spec(files, other) is Some {
        let j = find_spec(files, other).unwrap();
        assert(files[j].name == other);
        assert(f2.contains(files[j]));
        let k = choose|k: int| 0 <= k < f2.len() && f2[k] == files[j];
        lemma_find_at(f2, k);
        lemma_find_at(files, j);
    } else if find_spec(f2, other) is Some {
        let k = find_spec(f2, other).unwrap();
        assert(f2[k].name == other);
        assert(files.contains(f2[k]));
        let j = choose|j: int| 0 <= j < files.len() && files[j] == f2[k];
        lemma_find_at(files, j);
    }
}

/// Creating one file leaves what every other name reads unchanged.
pub proof fn law_create_leaves_others(files: Seq<FileModel>, name: Seq<char>, other: Seq<char>)
    requires
        fs_wf(files),
        other != name,
    ensures
        read_spec(create_spec(files, name).0, other) == read_spec(files, other),
{
    lemma_wf_create(files, name);
    let f2 = create_spec(files, name).0;
    if create_spec(files, name).1 is Ok {
        assert forall|k: int| 0 <= k < f2.len() && (#[trigger] f2[k]).name == other implies files.contains(f2[k]) by {
            assert(k < files.len());
            assert(files[k] == f2[k]);
        }
        assert forall|j: int| 0 <= j < files.len() && (#[trigger] files[j]).name == other implies f2.contains(files[j]) by {
            assert(files[j] == f2[j]);
        }
        lemma_read_same(files, f2, other);
    }
}

/// Deleting one file leaves what every other name reads unchanged.
pub proof fn law_delete_leaves_others(files: Seq<FileModel>, name: Seq<char>, other: Seq<char>)
    requires
        fs_wf(files),
        other != name,
    ensures
        read_spec(delete_spec(files, name).0, other) == read_spec(files, other),
{
    lemma_wf_delete(files, name);
    if find_spec(files, name) is Some {
        let i = find_spec(files, name).unwrap();
        let f2 = delete_spec(files, name).0;
        assert forall|k: int| 0 <= k < f2.len() && (#[trigger] f2[k]).name == other implies files.contains(f2[k]) by {
            let ok = if k < i { k } else { k + 1 };
            assert(files[ok] == f2[k]);
        }
        assert forall|j: int| 0 <= j < files.len() && (#[trigger] files[j]).name == other implies f2.contains(files[j]) by {
            assert(j != i);
            let k = if j < i { j } else { j - 1 };
            assert(files[j] == f2[k]);
        }
        lemma_read_same(files, f2, other);
    }
}

/// A run of calls that neither writes nor deletes `n`, and creates `n` only
/// while it exists, leaves what `n` reads unchanged.
proof fn lemma_reads_kept(files: Seq<FileModel>, n: Seq<char>, ops: Seq<FsOp>)
    requires
        fs_wf(files),
        forall|i: int| 0 <= i < ops.len() ==> !writes_or_deletes(#[trigger] ops[i], n),
        find_spec(files, n) is Some || forall|i: int| 0 <= i < ops.len() ==> !names_file(
            #[trigger] ops[i],
            n,
        ),
    ensures
        read_spec(apply_ops(files, ops), n) == read_spec(files, n),
    decreases ops.len(),
{
    if ops.len() > 0 {
        let op = ops[0];
        let f1 = apply_op(files, op);
        assert(!writes_or_deletes(ops[0], n));
        match op {
            FsOp::Create(m) => {
                if m == n {
                    assert(!names_file(ops[0], n) || find_spec(files, n) is Some);
                    assert(f1 == files);
                } else {
                    law_create_leaves_others(files, m, n);
                }
            },
            FsOp::Delete(m) => {
                law_delete_leaves_others(files, m, n);
            },
            FsOp::Write(m, c) => {
                law_write_leaves_others(files, m, c, n);
            },
        }
        lemma_wf_op(files, op);
        let rest = ops.drop_first();
        assert forall|i: int| 0 <= i < rest.len() implies !writes_or_deletes(#[trigger] rest[i], n) by {
            assert(rest[i] == ops[i + 1]);
        }
        if find_spec(files, n) is Some {
            assert(read_spec(files, n) is Ok);
            assert(read_spec(f1, n) is Ok);
        } else {
            assert forall|i: int| 0 <= i < rest.len() implies !names_file(#[trigger] rest[i], n) by {
                assert(rest[i] == ops[i + 1]);
            }
        }
        lemma_reads_kept(f1, n, rest);
    }
}

/// A file reads what was last written to it, however many calls on other
/// files (creating, deleting or writing them) came after the write.
pub proof fn law_read_last_write(files: Seq<FileModel>, n: Seq<char>, c: Seq<char>, later: Seq<FsOp>)
    requires
        fs_wf(files),
        write_spec(files, n, c).1 is Ok,
        forall|i: int| 0 <= i < later.len() ==> !writes_or_deletes(#[trigger] later[i], n),
    ensures
        read_spec(apply_ops(write_spec(files, n, c).0, later), n) == Ok::<Seq<char>, &'static str>(c),
{
    law_read_after_write(files, n, c);
    lemma_wf_write(files, n, c);
    lemma_reads_kept(write_spec(files, n, c).0, n, later);
}

/// A created file reads as empty until it is written or deleted, whatever
/// calls on other files come after.
pub proof fn law_created_reads_empty(files: Seq<FileModel>, n: Seq<char>, later: Seq<FsOp>)
    requires
        fs_wf(files),
        create_spec(files, n).1 is Ok,
        forall|i: int| 0 <= i < later.len() ==> !writes_or_deletes(#[trigger] later[i], n),
    ensures
        read_spec(apply_ops(create_spec(files, n).0, later), n) == Ok::<Seq<char>, &'static str>(
            Seq::empty(),
        ),
{
    law_created_file_is_empty(files, n);
    lemma_wf_create(files, n);
    lemma_reads_kept(create_spec(files, n).0, n, later);
}

/// Calls that never name `n` leave what `n` reads unchanged, whether or not
/// a file of that name exists.
pub proof fn law_other_calls_keep_reads(files: Seq<FileModel>, n: Seq<char>, ops: Seq<FsOp>)
    requires
        fs_wf(files),
        forall|i: int| 0 <= i < ops.len() ==> !names_file(#[trigger] ops[i], n),
    ensures
        read_spec(apply_ops(files, ops), n) == read_spec(files, n),
{
    assert forall|i: int| 0 <= i < ops.len() implies !writes_or_deletes(#[trigger] ops[i], n) by {
        assert(!names_file(ops[i], n));
    }
    lemma_reads_kept(files, n, ops);
}

} // verus!
