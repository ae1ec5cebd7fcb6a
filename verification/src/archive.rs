//! The archive sink: an append-only writer of a tar stream into one growing
//! byte buffer.
//!
//! A sink is owned by one run. `append` takes `&mut self`, so two appends never
//! interleave; `finalize` consumes the sink, so nothing is appended after it.
//!
//! An entry is taken only under a name that the archive stores as it is given
//! (`storable`). So what is appended is found again under its name, and a
//! step over several entries ends in a way that its names alone decide
//! (`emitted`).

use crate::error::Error;
use crate::text::chars_of;
use vstd::prelude::*;

verus! {

/// A `tar::Builder` that writes into a `Cursor<Vec<u8>>`.
#[verifier::external_body]
pub struct TarWriter {
    inner: tar::Builder<std::io::Cursor<Vec<u8>>>,
}

/// The mode of every entry: a regular file, `rw-r--r--`.
pub const FILE_MODE: u32 = 0o644;

/// The largest mode that the seven octal digits of a tar header hold.
pub const MODE_LIMIT: u32 = 0o7777777;

/// One file to be archived.
pub struct ArchiveEntry {
    pub name: String,
    pub data: Vec<u8>,
}

/// An entry as the archive holds it. Its size is the length of `data`.
pub struct EntryView {
    pub name: Seq<char>,
    pub data: Seq<u8>,
    pub mode: u32,
    pub mtime: u64,
}

/// What stands between the parts of an entry name.
pub const NAME_SEPARATOR: char = '/';

/// A part `.` of `name` begins at `i`.
pub open spec fn dot_part_at(name: Seq<char>, i: int) -> bool {
    &&& name[i] == '.'
    &&& i == 0 || name[i - 1] == NAME_SEPARATOR
    &&& i + 1 == name.len() || name[i + 1] == NAME_SEPARATOR
}

/// A part `..` of `name` begins at `i`.
pub open spec fn dot_dot_part_at(name: Seq<char>, i: int) -> bool {
    &&& i + 1 < name.len()
    &&& name[i] == '.'
    &&& name[i + 1] == '.'
    &&& i == 0 || name[i - 1] == NAME_SEPARATOR
    &&& i + 2 == name.len() || name[i + 2] == NAME_SEPARATOR
}

/// Nothing at index `i` keeps `name` from being stored as it is: no NUL, no
/// backslash, no second separator in a row, and no part `.` or `..`.
pub open spec fn storable_at(name: Seq<char>, i: int) -> bool {
    &&& name[i] != '\0'
    &&& name[i] != '\\'
    &&& !(name[i] == NAME_SEPARATOR && i + 1 < name.len() && name[i + 1] == NAME_SEPARATOR)
    &&& !dot_part_at(name, i)
    &&& !dot_dot_part_at(name, i)
}

/// The archive stores `name` as it is given, on every platform: it is not
/// empty, is relative (no separator in front, no drive letter), names a file
/// (no separator at the end), and every part of it is a plain name.
pub open spec fn storable(name: Seq<char>) -> bool {
    &&& name.len() > 0
    &&& name[0] != NAME_SEPARATOR
    &&& name.last() != NAME_SEPARATOR
    &&& !(name.len() >= 2 && name[1] == ':')
    &&& forall|i: int| 0 <= i < name.len() ==> #[trigger] storable_at(name, i)
}

/// `c` is none of the characters that can keep a name from being stored.
pub open spec fn plain_char(c: char) -> bool {
    c != NAME_SEPARATOR && c != '\\' && c != '\0' && c != ':'
}

/// `s` holds plain characters only.
pub open spec fn plain(s: Seq<char>) -> bool {
    forall|i: int| 0 <= i < s.len() ==> plain_char(#[trigger] s[i])
}

/// The 1024 zero bytes that end an archive.
pub open spec fn end_marker() -> Seq<u8> {
    Seq::new(1024, |i: int| 0u8)
}

/// The entries that were appended to `builder`, oldest first, each as name,
/// content, mode and modification time.
pub uninterp spec fn archive_entries(builder: TarWriter) -> Seq<
    (Seq<char>, Seq<u8>, u32, u64),
>;

/// The tar stream of the given entries, end-of-archive marker included.
pub uninterp spec fn tar_encoding(entries: Seq<(Seq<char>, Seq<u8>, u32, u64)>) -> Seq<u8>;

/// `tar::Builder::new` over an empty `Cursor<Vec<u8>>`: a builder that holds
/// no entry.
#[verifier::external_body]
fn tar_new() -> (builder: TarWriter)
    ensures
        archive_entries(builder) == Seq::<(Seq<char>, Seq<u8>, u32, u64)>::empty(),
{
    TarWriter { inner: tar::Builder::new(std::io::Cursor::new(Vec::new())) }
}

/// `tar::Builder::append_data` with a GNU header of the given size, mode and
/// modification time. It stores a name part by part and refuses a name only
/// for what `storable` rules out, before a byte is written; a write into a
/// `Vec` does not fail. So the call succeeds, and the entry, under the name as
/// given, is the builder's last. `Header::set_mode` keeps seven octal digits,
/// hence the bound on `mode`.
#[verifier::external_body]
fn tar_append(
    builder: &mut TarWriter,
    name: &str,
    data: &Vec<u8>,
    mode: u32,
    mtime: u64,
) -> (r: Result<(), std::io::Error>)
    requires
        storable(name@),
        mode <= MODE_LIMIT,
    ensures
        r is Ok,
        archive_entries(*final(builder)) == archive_entries(*old(builder)).push(
            (name@, data@, mode, mtime),
        ),
{
    let mut header = tar::Header::new_gnu();
    header.set_size(data.len() as u64);
    header.set_mode(mode);
    header.set_mtime(mtime);
    header.set_cksum();
    builder.inner.append_data(&mut header, name, &data[..])
}

/// `tar::Builder::into_inner`, then `Cursor::into_inner`: writes the
/// end-of-archive marker, 1024 zero bytes, behind what the entries took, and
/// hands out the whole stream. A write into a `Vec` does not fail.
#[verifier::external_body]
fn tar_into_inner(builder: TarWriter) -> (r: Result<Vec<u8>, std::io::Error>)
    ensures
        r is Ok,
        r matches Ok(bytes) ==> bytes@ == tar_encoding(archive_entries(builder)),
        r matches Ok(bytes) ==> bytes@.len() >= 1024 && bytes@.skip(bytes@.len() - 1024)
            == end_marker(),
        r matches Ok(bytes) ==> (archive_entries(builder).len() == 0 ==> bytes@ == end_marker()),
{
    builder.inner.into_inner().map(|cursor| cursor.into_inner())
}

/// An entry as a tuple of plain values.
pub open spec fn entry_tuple(e: EntryView) -> (Seq<char>, Seq<u8>, u32, u64) {
    (e.name, e.data, e.mode, e.mtime)
}

/// The entry that a tuple of plain values stands for.
pub open spec fn entry_view(t: (Seq<char>, Seq<u8>, u32, u64)) -> EntryView {
    EntryView { name: t.0, data: t.1, mode: t.2, mtime: t.3 }
}

/// The tar stream of `entries`.
pub open spec fn archive_bytes(entries: Seq<EntryView>) -> Seq<u8> {
    tar_encoding(entries.map_values(|e: EntryView| entry_tuple(e)))
}

/// How a sink records an entry: under the fixed mode and the run's
/// modification time.
pub open spec fn recorded(name: Seq<char>, data: Seq<u8>, mtime: u64) -> EntryView {
    EntryView { name, data, mode: FILE_MODE, mtime }
}

/// The first entry of `entries` that is named `name`.
pub open spec fn lookup(entries: Seq<EntryView>, name: Seq<char>) -> Option<EntryView>
    decreases entries.len(),
{
    if entries.len() == 0 {
        None
    } else if entries[0].name == name {
        Some(entries[0])
    } else {
        lookup(entries.drop_first(), name)
    }
}

/// No two entries share a name.
pub open spec fn names_unique(entries: Seq<EntryView>) -> bool {
    forall|i: int, j: int| 0 <= i < j < entries.len() ==> entries[i].name != entries[j].name
}

/// The single writer of one run's archive.
pub struct ArchiveSink {
    builder: TarWriter,
    mtime: u64,
}

impl ArchiveSink {
    /// The entries appended so far, oldest first.
    pub closed spec fn entries(&self) -> Seq<EntryView> {
        archive_entries(self.builder).map_values(|t: (Seq<char>, Seq<u8>, u32, u64)| entry_view(t))
    }

    /// The modification time that every entry of this run carries.
    pub closed spec fn mtime(&self) -> u64 {
        self.mtime
    }

    /// Every entry carries the fixed mode and the run's modification time.
    pub open spec fn wf(&self) -> bool {
        forall|i: int|
            0 <= i < self.entries().len() ==> {
                &&& (#[trigger] self.entries()[i]).mode == FILE_MODE
                &&& self.entries()[i].mtime == self.mtime()
            }
    }

    /// An empty sink whose entries will carry `mtime`.
    pub fn new(mtime: u64) -> (sink: ArchiveSink)
        ensures
            sink.wf(),
            sink.mtime() == mtime,
            sink.entries() == Seq::<EntryView>::empty(),
    {
        let sink = ArchiveSink { builder: tar_new(), mtime };
        assert(sink.entries() =~= Seq::<EntryView>::empty());
        sink
    }

    /// Appends `entry`, if its name can be stored as it is. On success it is
    /// the sink's last entry; a refused name leaves the sink as it was.
    pub fn append(&mut self, entry: &ArchiveEntry) -> (r: Result<(), Error>)
        requires
            old(self).wf(),
        ensures
            final(self).wf(),
            final(self).mtime() == old(self).mtime(),
            r is Ok <==> storable(entry.name@),
            r is Ok ==> final(self).entries() == old(self).entries().push(
                recorded(entry.name@, entry.data@, old(self).mtime()),
            ),
            r matches Err(e) ==> e is Io && final(self).entries() == old(self).entries(),
    {
        if !is_storable(&chars_of(entry.name.as_str())) {
            return Err(Error::Io(String::from_str("the entry name cannot be stored as it is")));
        }
        let r = tar_append(
            &mut self.builder,
            entry.name.as_str(),
            &entry.data,
            FILE_MODE,
            self.mtime,
        );
        assert(self.entries() =~= old(self).entries().push(
            recorded(entry.name@, entry.data@, old(self).mtime()),
        ));
        match r {
            Ok(()) => Ok(()),
            Err(err) => Err(Error::from_io(err)),
        }
    }

    /// Ends the archive and hands out its bytes: what the entries took, then
    /// the end marker.
    pub fn finalize(self) -> (r: Result<Vec<u8>, Error>)
        ensures
            r matches Ok(bytes) && {
                &&& bytes@ == archive_bytes(self.entries())
                &&& bytes@.len() >= 1024
                &&& bytes@.skip(bytes@.len() - 1024) == end_marker()
                &&& self.entries().len() == 0 ==> bytes@ == end_marker()
            },
    {
        proof {
            assert(self.entries().map_values(|e: EntryView| entry_tuple(e)) =~= archive_entries(
                self.builder,
            ));
        }
        match tar_into_inner(self.builder) {
            Ok(bytes) => Ok(bytes),
            Err(err) => Err(Error::from_io(err)),
        }
    }
}

/// Whether the archive stores `name` as it is given.
pub fn is_storable(name: &Vec<char>) -> (ok: bool)
    ensures
        ok == storable(name@),
{
    let len = name.len();
    if len == 0 || name[0] == NAME_SEPARATOR || name[len - 1] == NAME_SEPARATOR {
        return false;
    }
    if len >= 2 && name[1] == ':' {
        return false;
    }
    let mut i: usize = 0;
    while i < len
        invariant
            i <= len,
            len == name.len(),
            forall|j: int| 0 <= j < i ==> #[trigger] storable_at(name@, j),
        decreases len - i,
    {
        let c = name[i];
        let at_start = i == 0 || name[i - 1] == NAME_SEPARATOR;
        let twice = c == NAME_SEPARATOR && i + 1 < len && name[i + 1] == NAME_SEPARATOR;
        let dot = c == '.' && at_start && (i + 1 == len || name[i + 1] == NAME_SEPARATOR);
        let dot_dot = i + 1 < len && c == '.' && name[i + 1] == '.' && at_start && (i + 2 == len
            || name[i + 2] == NAME_SEPARATOR);
        if c == '\0' || c == '\\' || twice || dot || dot_dot {
            assert(!storable_at(name@, i as int));
            return false;
        }
        i += 1;
    }
    true
}

/// Appending keeps what was there: a name that was found before is found
/// again, with the same entry, and the new entry is found under its name if
/// that name was free.
pub proof fn lemma_lookup_after_append(entries: Seq<EntryView>, e: EntryView, name: Seq<char>)
    ensures
        lookup(entries, name) is Some ==> lookup(entries.push(e), name) == lookup(entries, name),
        lookup(entries, name) is None && e.name == name ==> lookup(entries.push(e), name) == Some(
            e,
        ),
        lookup(entries, name) is None && e.name != name ==> lookup(entries.push(e), name) is None,
    decreases entries.len(),
{
    if entries.len() == 0 {
        assert(entries.push(e).drop_first() =~= entries);
    } else {
        assert(entries.push(e).drop_first() =~= entries.drop_first().push(e));
        lemma_lookup_after_append(entries.drop_first(), e, name);
    }
}

/// Round trip of the archive's contents: where no two entries share a name,
/// every entry is found under its own name, with its own size and bytes.
pub proof fn lemma_every_entry_retrievable(entries: Seq<EntryView>, i: int)
    requires
        names_unique(entries),
        0 <= i < entries.len(),
    ensures
        lookup(entries, entries[i].name) == Some(entries[i]),
    decreases entries.len(),
{
    if i > 0 {
        let rest = entries.drop_first();
        assert(forall|a: int, b: int|
            0 <= a < b < rest.len() ==> rest[a] == entries[a + 1] && rest[b] == entries[b + 1]);
        lemma_every_entry_retrievable(rest, i - 1);
    }
}

/// The index of the first of `expected` whose name cannot be stored as it
/// is; the length of `expected` where there is none.
pub open spec fn first_refused(expected: Seq<EntryView>) -> int
    decreases expected.len(),
{
    if expected.len() == 0 {
        0
    } else if !storable(expected[0].name) {
        0
    } else {
        1 + first_refused(expected.drop_first())
    }
}

/// Every name of `expected` can be stored as it is.
pub open spec fn all_storable(expected: Seq<EntryView>) -> bool {
    first_refused(expected) == expected.len()
}

/// What is written of `expected`: all that comes before the first entry whose
/// name is refused.
pub open spec fn written(expected: Seq<EntryView>) -> Seq<EntryView> {
    expected.take(first_refused(expected))
}

/// How a step that is to append `expected` ends. It succeeds exactly where
/// every name can be stored; it stops at the first that cannot, and what comes
/// before that one is appended to `before`.
pub open spec fn emitted(
    before: Seq<EntryView>,
    after: Seq<EntryView>,
    expected: Seq<EntryView>,
    ok: bool,
) -> bool {
    &&& ok == all_storable(expected)
    &&& after == before + written(expected)
}

/// Two plain texts in a row are plain.
pub proof fn lemma_plain_concat(a: Seq<char>, b: Seq<char>)
    requires
        plain(a),
        plain(b),
    ensures
        plain(a + b),
{
    assert forall|i: int| 0 <= i < (a + b).len() implies plain_char(#[trigger] (a + b)[i]) by {
        if i < a.len() {
            assert((a + b)[i] == a[i]);
        } else {
            assert((a + b)[i] == b[i - a.len()]);
        }
    }
}

/// A plain name of three characters or more can be stored as it is.
pub proof fn lemma_plain_name_is_storable(name: Seq<char>)
    requires
        plain(name),
        name.len() >= 3,
    ensures
        storable(name),
{
    assert(plain_char(name[0]));
    assert(plain_char(name[1]));
    assert(plain_char(name.last()));
    assert forall|i: int| 0 <= i < name.len() implies #[trigger] storable_at(name, i) by {
        assert(plain_char(name[i]));
        if i > 0 {
            assert(plain_char(name[i - 1]));
        }
        if i + 1 < name.len() {
            assert(plain_char(name[i + 1]));
        }
        if i + 2 < name.len() {
            assert(plain_char(name[i + 2]));
        }
    }
}

/// The first refused entry lies in `expected`, or is its end.
pub proof fn lemma_first_refused_bounds(expected: Seq<EntryView>)
    ensures
        0 <= first_refused(expected) <= expected.len(),
        first_refused(expected) < expected.len() ==> !storable(
            expected[first_refused(expected)].name,
        ),
        forall|i: int| 0 <= i < first_refused(expected) ==> storable(#[trigger] expected[i].name),
    decreases expected.len(),
{
    if expected.len() > 0 && storable(expected[0].name) {
        let rest = expected.drop_first();
        lemma_first_refused_bounds(rest);
        assert forall|i: int| 0 <= i < first_refused(expected) implies storable(
            #[trigger] expected[i].name,
        ) by {
            if i > 0 {
                assert(expected[i] == rest[i - 1]);
            }
        }
        if first_refused(expected) < expected.len() {
            assert(expected[first_refused(expected)] == rest[first_refused(rest)]);
        }
    }
}

/// The first refused entry of two steps in a row is that of the first step,
/// or else that of the second.
pub proof fn lemma_first_refused_concat(a: Seq<EntryView>, b: Seq<EntryView>)
    ensures
        first_refused(a + b) == if all_storable(a) {
            a.len() + first_refused(b)
        } else {
            first_refused(a)
        },
    decreases a.len(),
{
    if a.len() == 0 {
        assert(a + b =~= b);
    } else {
        assert((a + b).drop_first() =~= a.drop_first() + b);
        assert((a + b)[0] == a[0]);
        lemma_first_refused_concat(a.drop_first(), b);
    }
}

/// What is written of two steps in a row. Both succeed exactly where each
/// does; where the first fails, the second is not begun.
pub proof fn lemma_written_concat(a: Seq<EntryView>, b: Seq<EntryView>)
    ensures
        all_storable(a + b) == (all_storable(a) && all_storable(b)),
        all_storable(a) ==> written(a + b) == a + written(b),
        !all_storable(a) ==> written(a + b) == written(a),
{
    lemma_first_refused_concat(a, b);
    lemma_first_refused_bounds(a);
    lemma_first_refused_bounds(b);
    if all_storable(a) {
        assert(written(a + b) =~= a + written(b));
    } else {
        assert(written(a + b) =~= written(a));
    }
}

/// A step that failed has also failed as the beginning of a longer step.
pub proof fn lemma_emitted_within(
    before: Seq<EntryView>,
    after: Seq<EntryView>,
    part: Seq<EntryView>,
    whole: Seq<EntryView>,
)
    requires
        emitted(before, after, part, false),
        part.len() <= whole.len(),
        whole.take(part.len() as int) == part,
    ensures
        emitted(before, after, whole, false),
{
    let rest = whole.skip(part.len() as int);
    assert(whole =~= part + rest);
    lemma_written_concat(part, rest);
}

/// A step that follows the successful step `done` is the rest of the step
/// `done + part`.
pub proof fn lemma_emitted_after(
    before: Seq<EntryView>,
    after: Seq<EntryView>,
    done: Seq<EntryView>,
    part: Seq<EntryView>,
    ok: bool,
)
    requires
        all_storable(done),
        emitted(before + done, after, part, ok),
    ensures
        emitted(before, after, done + part, ok),
{
    lemma_written_concat(done, part);
    assert(before + (done + written(part)) =~= (before + done) + written(part));
}

/// A step all of whose names can be stored succeeds and appends them all.
pub proof fn lemma_emitted_done(before: Seq<EntryView>, expected: Seq<EntryView>)
    requires
        all_storable(expected),
    ensures
        emitted(before, before + expected, expected, true),
{
    assert(written(expected) =~= expected);
}

/// What is written of a pair of entries.
pub proof fn lemma_pair_first_refused(first: EntryView, second: EntryView)
    ensures
        first_refused(seq![first, second]) == if !storable(first.name) {
            0int
        } else if !storable(second.name) {
            1int
        } else {
            2int
        },
{
    let pair = seq![first, second];
    assert(pair.drop_first() =~= seq![second]);
    assert(seq![second].drop_first() =~= Seq::<EntryView>::empty());
    assert(first_refused(Seq::<EntryView>::empty()) == 0);
    assert(first_refused(seq![second]) == if !storable(second.name) {
        0int
    } else {
        1int
    });
}

/// A step that succeeded has appended all of `expected`.
pub proof fn lemma_emitted_all(before: Seq<EntryView>, after: Seq<EntryView>, expected: Seq<EntryView>)
    requires
        emitted(before, after, expected, true),
    ensures
        after == before + expected,
{
    assert(written(expected) =~= expected);
}

} // verus!
