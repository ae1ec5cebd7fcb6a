//! Decoded containers and the walk through them.
//!
//! A container is either a model container, which embeds texture groups, or a
//! flat container, whose named entries may hold further containers. The walk
//! descends through flat containers, keeps the path of each container that it
//! opens, and hands every texture that it meets to the decomposition.

use crate::archive::{
    all_storable, emitted, lemma_written_concat, plain, plain_char, lemma_emitted_after, lemma_emitted_all, lemma_emitted_done,
    lemma_emitted_within, ArchiveSink, EntryView,
};
use crate::error::Error;
use crate::path::{
    flattened, joined, lemma_flattened_brings_nothing_in, lemma_flattened_has_no_separator, opened,
    with_extension, OutputPath,
};
use crate::text::chars_of;
use crate::texture::{
    decompose, lemma_plain_texture_is_written, texture_entries, GroupView, TextureGroup,
    TextureView,
};
use vstd::prelude::*;

verus! {

/// A container that embeds texture groups.
pub struct ModelContainer {
    pub groups: Vec<TextureGroup>,
}

/// What the decoder made of the payload of an entry: a container, and the
/// file extension that goes with its kind.
pub struct Decoded {
    pub extension: String,
    pub node: ContainerNode,
}

/// One entry of a flat container. `decoded` is what the decoder makes of
/// `payload()`, and `None` where it does not recognise those bytes.
pub struct FlatEntry {
    pub name: Option<String>,
    pub raw: Vec<u8>,
    pub decompressed: Option<Vec<u8>>,
    pub decoded: Option<Decoded>,
}

/// A container that is a list of named entries.
pub struct FlatContainer {
    pub entries: Vec<FlatEntry>,
}

/// A decoded container.
pub enum ContainerNode {
    ModelContainer(ModelContainer),
    FlatContainer(FlatContainer),
}

/// A model container as the contracts see it.
pub struct ModelView {
    pub groups: Seq<GroupView>,
}

/// What the decoder made of a payload, as the contracts see it.
pub struct DecodedView {
    pub extension: Seq<char>,
    pub node: NodeView,
}

/// An entry of a flat container as the contracts see it.
pub struct FlatEntryView {
    pub name: Option<Seq<char>>,
    pub raw: Seq<u8>,
    pub decompressed: Option<Seq<u8>>,
    pub decoded: Option<DecodedView>,
}

/// A flat container as the contracts see it.
pub struct FlatView {
    pub entries: Seq<FlatEntryView>,
}

/// A decoded container as the contracts see it.
pub enum NodeView {
    ModelContainer(ModelView),
    FlatContainer(FlatView),
}

/// The view of a model container.
pub open spec fn model_view(model: ModelContainer) -> ModelView {
    ModelView { groups: Seq::new(model.groups.len() as nat, |i: int| model.groups[i]@) }
}

/// The view of a container.
pub open spec fn node_view(node: ContainerNode) -> NodeView
    decreases node,
{
    match node {
        ContainerNode::ModelContainer(model) => NodeView::ModelContainer(model_view(model)),
        ContainerNode::FlatContainer(flat) => NodeView::FlatContainer(flat_view(flat)),
    }
}

/// The view of a flat container.
pub open spec fn flat_view(flat: FlatContainer) -> FlatView
    decreases flat,
{
    FlatView {
        entries: Seq::new(
            flat.entries.len() as nat,
            |i: int|
                if 0 <= i < flat.entries.len() {
                    entry_view(flat.entries[i])
                } else {
                    arbitrary()
                },
        ),
    }
}

/// The view of an entry of a flat container.
pub open spec fn entry_view(entry: FlatEntry) -> FlatEntryView
    decreases entry,
{
    FlatEntryView {
        name: match entry.name {
            Some(name) => Some(name@),
            None => None,
        },
        raw: entry.raw@,
        decompressed: match entry.decompressed {
            Some(bytes) => Some(bytes@),
            None => None,
        },
        decoded: match entry.decoded {
            Some(decoded) => Some(
                DecodedView { extension: decoded.extension@, node: node_view(decoded.node) },
            ),
            None => None,
        },
    }
}

impl View for ModelContainer {
    type V = ModelView;

    open spec fn view(&self) -> ModelView {
        model_view(*self)
    }
}

impl View for ContainerNode {
    type V = NodeView;

    open spec fn view(&self) -> NodeView {
        node_view(*self)
    }
}

impl View for FlatContainer {
    type V = FlatView;

    open spec fn view(&self) -> FlatView {
        flat_view(*self)
    }
}

impl View for FlatEntry {
    type V = FlatEntryView;

    open spec fn view(&self) -> FlatEntryView {
        entry_view(*self)
    }
}

/// The bytes of an entry that are to be decoded: the decompressed form where
/// there is one, else the raw form.
pub open spec fn payload_of(entry: FlatEntryView) -> Seq<u8> {
    match entry.decompressed {
        Some(bytes) => bytes,
        None => entry.raw,
    }
}

/// What the first `n` of `textures` add.
pub open spec fn textures_entries(
    flat: Seq<char>,
    textures: Seq<TextureView>,
    n: nat,
    mtime: u64,
) -> Seq<EntryView>
    decreases n,
{
    if n == 0 {
        Seq::empty()
    } else {
        textures_entries(flat, textures, (n - 1) as nat, mtime) + texture_entries(
            flat,
            textures[n - 1],
            mtime,
        )
    }
}

/// What the first `n` of `groups` add.
pub open spec fn groups_entries(flat: Seq<char>, groups: Seq<GroupView>, n: nat, mtime: u64) -> Seq<
    EntryView,
>
    decreases n,
{
    if n == 0 {
        Seq::empty()
    } else {
        groups_entries(flat, groups, (n - 1) as nat, mtime) + textures_entries(
            flat,
            groups[n - 1].textures,
            groups[n - 1].textures.len(),
            mtime,
        )
    }
}

/// What a model container found at `path` adds: every texture of every group,
/// in order, under names that begin with the flattened path.
pub open spec fn model_entries(model: ModelView, path: Seq<char>, mtime: u64) -> Seq<EntryView> {
    groups_entries(flattened(path), model.groups, model.groups.len(), mtime)
}

/// The path that the container in an entry named `name` opens into, where the
/// flat container around it was found at `path`.
pub open spec fn entry_path(path: Seq<char>, name: Seq<char>, extension: Seq<char>) -> Seq<char> {
    opened(with_extension(joined(path, name), extension))
}

/// What the container `node` found at `path` adds to the archive.
pub open spec fn node_entries(node: NodeView, path: Seq<char>, mtime: u64) -> Seq<EntryView>
    decreases node, 0nat,
{
    match node {
        NodeView::ModelContainer(model) => model_entries(model, path, mtime),
        NodeView::FlatContainer(flat) => flat_entries(flat, path, flat.entries.len(), mtime),
    }
}

/// What the first `n` entries of the flat container `flat` found at `path` add.
pub open spec fn flat_entries(flat: FlatView, path: Seq<char>, n: nat, mtime: u64) -> Seq<
    EntryView,
>
    decreases flat, n,
{
    if n == 0 || n > flat.entries.len() {
        Seq::empty()
    } else {
        flat_entries(flat, path, (n - 1) as nat, mtime) + entry_entries(
            flat.entries[n - 1],
            path,
            mtime,
        )
    }
}

/// What one entry of a flat container found at `path` adds: what the
/// container in it adds, and nothing where it has no name or holds none.
pub open spec fn entry_entries(entry: FlatEntryView, path: Seq<char>, mtime: u64) -> Seq<
    EntryView,
>
    decreases entry, 0nat,
{
    match (entry.name, entry.decoded) {
        (Some(name), Some(decoded)) => node_entries(
            decoded.node,
            entry_path(path, name, decoded.extension),
            mtime,
        ),
        _ => Seq::empty(),
    }
}

/// The first `n` textures' entries begin the first `m` textures' entries.
pub proof fn lemma_textures_prefix(
    flat: Seq<char>,
    textures: Seq<TextureView>,
    n: nat,
    m: nat,
    mtime: u64,
)
    requires
        n <= m,
    ensures
        textures_entries(flat, textures, n, mtime).len() <= textures_entries(
            flat,
            textures,
            m,
            mtime,
        ).len(),
        textures_entries(flat, textures, m, mtime).take(
            textures_entries(flat, textures, n, mtime).len() as int,
        ) == textures_entries(flat, textures, n, mtime),
    decreases m,
{
    let short = textures_entries(flat, textures, n, mtime);
    let long = textures_entries(flat, textures, m, mtime);
    if n == m {
        assert(long.take(short.len() as int) =~= short);
    } else {
        lemma_textures_prefix(flat, textures, n, (m - 1) as nat, mtime);
        let prev = textures_entries(flat, textures, (m - 1) as nat, mtime);
        assert(long.take(short.len() as int) =~= prev.take(short.len() as int));
    }
}

/// The first `n` groups' entries begin the first `m` groups' entries.
pub proof fn lemma_groups_prefix(
    flat: Seq<char>,
    groups: Seq<GroupView>,
    n: nat,
    m: nat,
    mtime: u64,
)
    requires
        n <= m,
    ensures
        groups_entries(flat, groups, n, mtime).len() <= groups_entries(flat, groups, m, mtime).len(),
        groups_entries(flat, groups, m, mtime).take(
            groups_entries(flat, groups, n, mtime).len() as int,
        ) == groups_entries(flat, groups, n, mtime),
    decreases m,
{
    let short = groups_entries(flat, groups, n, mtime);
    let long = groups_entries(flat, groups, m, mtime);
    if n == m {
        assert(long.take(short.len() as int) =~= short);
    } else {
        lemma_groups_prefix(flat, groups, n, (m - 1) as nat, mtime);
        let prev = groups_entries(flat, groups, (m - 1) as nat, mtime);
        assert(long.take(short.len() as int) =~= prev.take(short.len() as int));
    }
}

/// The first `n` entries' additions begin the first `m` entries' additions.
pub proof fn lemma_flat_prefix(flat: FlatView, path: Seq<char>, n: nat, m: nat, mtime: u64)
    requires
        n <= m <= flat.entries.len(),
    ensures
        flat_entries(flat, path, n, mtime).len() <= flat_entries(flat, path, m, mtime).len(),
        flat_entries(flat, path, m, mtime).take(flat_entries(flat, path, n, mtime).len() as int)
            == flat_entries(flat, path, n, mtime),
    decreases m,
{
    let short = flat_entries(flat, path, n, mtime);
    let long = flat_entries(flat, path, m, mtime);
    if n == m {
        assert(long.take(short.len() as int) =~= short);
    } else {
        lemma_flat_prefix(flat, path, n, (m - 1) as nat, mtime);
        let prev = flat_entries(flat, path, (m - 1) as nat, mtime);
        assert(long.take(short.len() as int) =~= prev.take(short.len() as int));
    }
}

impl FlatEntry {
    /// The bytes that are to be decoded: the decompressed form where there is
    /// one, else the raw form.
    pub fn payload(&self) -> (bytes: &Vec<u8>)
        ensures
            bytes@ == payload_of(self@),
    {
        match &self.decompressed {
            Some(bytes) => bytes,
            None => &self.raw,
        }
    }
}

/// Appends what the textures of `group` add, under names that begin with
/// `flat`.
pub fn write_group(group: &TextureGroup, flat: &Vec<char>, sink: &mut ArchiveSink) -> (r: Result<
    (),
    Error,
>)
    requires
        old(sink).wf(),
    ensures
        final(sink).wf(),
        final(sink).mtime() == old(sink).mtime(),
        emitted(
            old(sink).entries(),
            final(sink).entries(),
            textures_entries(flat@, group@.textures, group@.textures.len(), old(sink).mtime()),
            r is Ok,
        ),
        r matches Err(e) ==> e is Io,
{
    let ghost before = sink.entries();
    let ghost mtime = sink.mtime();
    let ghost all = textures_entries(flat@, group@.textures, group@.textures.len(), mtime);
    assert(before + Seq::<EntryView>::empty() =~= before);
    let mut i: usize = 0;
    while i < group.textures.len()
        invariant
            i <= group.textures.len(),
            sink.wf(),
            before == old(sink).entries(),
            mtime == old(sink).mtime(),
            all == textures_entries(flat@, group@.textures, group@.textures.len(), mtime),
            sink.mtime() == mtime,
            all_storable(textures_entries(flat@, group@.textures, i as nat, mtime)),
            sink.entries() == before + textures_entries(flat@, group@.textures, i as nat, mtime),
        decreases group.textures.len() - i,
    {
        let ghost done = textures_entries(flat@, group@.textures, i as nat, mtime);
        let ghost part = texture_entries(flat@, group@.textures[i as int], mtime);
        let ghost next = textures_entries(flat@, group@.textures, (i + 1) as nat, mtime);
        assert(next == done + part);
        let r = decompose(&group.textures[i], flat, sink);
        proof {
            lemma_emitted_after(before, sink.entries(), done, part, r is Ok);
        }
        match r {
            Ok(()) => {
                proof {
                    lemma_emitted_all(before, sink.entries(), next);
                }
            },
            Err(e) => {
                proof {
                    lemma_textures_prefix(
                        flat@,
                        group@.textures,
                        (i + 1) as nat,
                        group@.textures.len(),
                        mtime,
                    );
                    lemma_emitted_within(before, sink.entries(), next, all);
                }
                return Err(e);
            },
        }
        i += 1;
    }
    proof {
        lemma_emitted_done(before, all);
    }
    Ok(())
}

/// Appends what the model container `bfres`, found at `out_path`, adds: every
/// texture of every group, under names that begin with the flattened path.
pub fn extract_bfres(bfres: &ModelContainer, sink: &mut ArchiveSink, out_path: &OutputPath) -> (r:
    Result<(), Error>)
    requires
        old(sink).wf(),
    ensures
        final(sink).wf(),
        final(sink).mtime() == old(sink).mtime(),
        emitted(
            old(sink).entries(),
            final(sink).entries(),
            model_entries(bfres@, out_path@, old(sink).mtime()),
            r is Ok,
        ),
        r matches Err(e) ==> e is Io,
{
    let ghost before = sink.entries();
    let ghost mtime = sink.mtime();
    let flat = out_path.flattened();
    let ghost all = groups_entries(flat@, bfres@.groups, bfres@.groups.len(), mtime);
    assert(before + Seq::<EntryView>::empty() =~= before);
    let mut i: usize = 0;
    while i < bfres.groups.len()
        invariant
            i <= bfres.groups.len(),
            flat@ == flattened(out_path@),
            sink.wf(),
            before == old(sink).entries(),
            mtime == old(sink).mtime(),
            all == groups_entries(flat@, bfres@.groups, bfres@.groups.len(), mtime),
            sink.mtime() == mtime,
            all_storable(groups_entries(flat@, bfres@.groups, i as nat, mtime)),
            sink.entries() == before + groups_entries(flat@, bfres@.groups, i as nat, mtime),
        decreases bfres.groups.len() - i,
    {
        let ghost done = groups_entries(flat@, bfres@.groups, i as nat, mtime);
        let ghost part = textures_entries(
            flat@,
            bfres@.groups[i as int].textures,
            bfres@.groups[i as int].textures.len(),
            mtime,
        );
        let ghost next = groups_entries(flat@, bfres@.groups, (i + 1) as nat, mtime);
        assert(next == done + part);
        let r = write_group(&bfres.groups[i], &flat, sink);
        proof {
            lemma_emitted_after(before, sink.entries(), done, part, r is Ok);
        }
        match r {
            Ok(()) => {
                proof {
                    lemma_emitted_all(before, sink.entries(), next);
                }
            },
            Err(e) => {
                proof {
                    lemma_groups_prefix(
                        flat@,
                        bfres@.groups,
                        (i + 1) as nat,
                        bfres@.groups.len(),
                        mtime,
                    );
                    lemma_emitted_within(before, sink.entries(), next, all);
                }
                return Err(e);
            },
        }
        i += 1;
    }
    proof {
        lemma_emitted_done(before, all);
    }
    Ok(())
}

/// Appends what the container `node`, found at `out_path`, adds to the
/// archive.
pub fn walk(node: &ContainerNode, sink: &mut ArchiveSink, out_path: &OutputPath) -> (r: Result<
    (),
    Error,
>)
    requires
        old(sink).wf(),
    ensures
        final(sink).wf(),
        final(sink).mtime() == old(sink).mtime(),
        emitted(
            old(sink).entries(),
            final(sink).entries(),
            node_entries(node@, out_path@, old(sink).mtime()),
            r is Ok,
        ),
        r matches Err(e) ==> e is Io,
    decreases *node, 1nat,
{
    match node {
        ContainerNode::ModelContainer(bfres) => extract_bfres(bfres, sink, out_path),
        ContainerNode::FlatContainer(sarc) => extract_sarc(sarc, sink, out_path),
    }
}

/// Appends what the flat container `sarc`, found at `out_path`, adds: for
/// each entry that has a name and holds a container, in order, what that
/// container adds at the path it opens into. An entry that holds none is
/// passed over and is no failure. The step stops at the first name that
/// cannot be stored.
pub fn extract_sarc(sarc: &FlatContainer, sink: &mut ArchiveSink, out_path: &OutputPath) -> (r:
    Result<(), Error>)
    requires
        old(sink).wf(),
    ensures
        final(sink).wf(),
        final(sink).mtime() == old(sink).mtime(),
        emitted(
            old(sink).entries(),
            final(sink).entries(),
            flat_entries(sarc@, out_path@, sarc@.entries.len(), old(sink).mtime()),
            r is Ok,
        ),
        r matches Err(e) ==> e is Io,
    decreases *sarc, 0nat,
{
    let ghost before = sink.entries();
    let ghost mtime = sink.mtime();
    let ghost all = flat_entries(sarc@, out_path@, sarc@.entries.len(), mtime);
    assert(before + Seq::<EntryView>::empty() =~= before);
    let mut i: usize = 0;
    while i < sarc.entries.len()
        invariant
            i <= sarc.entries.len(),
            sink.wf(),
            before == old(sink).entries(),
            mtime == old(sink).mtime(),
            all == flat_entries(sarc@, out_path@, sarc@.entries.len(), mtime),
            sink.mtime() == mtime,
            all_storable(flat_entries(sarc@, out_path@, i as nat, mtime)),
            sink.entries() == before + flat_entries(sarc@, out_path@, i as nat, mtime),
        decreases sarc.entries.len() - i,
    {
        let ghost done = flat_entries(sarc@, out_path@, i as nat, mtime);
        let ghost part = entry_entries(sarc@.entries[i as int], out_path@, mtime);
        let ghost next = flat_entries(sarc@, out_path@, (i + 1) as nat, mtime);
        assert(sarc@.entries[i as int] == sarc.entries[i as int]@);
        assert(next == done + part);
        let entry = &sarc.entries[i];
        let mut r: Result<(), Error> = Ok(());
        if let Some(name) = &entry.name {
            if let Some(decoded) = &entry.decoded {
                let mut path = out_path.join(&chars_of(name.as_str()));
                path.set_extension(&chars_of(decoded.extension.as_str()));
                let path0 = path.opened();
                r = walk(&decoded.node, sink, &path0);
            }
        }
        proof {
            if entry.name is None || entry.decoded is None {
                assert(before + done + Seq::<EntryView>::empty() =~= before + done);
                lemma_emitted_done(before + done, Seq::<EntryView>::empty());
            }
            lemma_emitted_after(before, sink.entries(), done, part, r is Ok);
        }
        match r {
            Ok(()) => {
                proof {
                    lemma_emitted_all(before, sink.entries(), next);
                }
            },
            Err(e) => {
                proof {
                    lemma_flat_prefix(
                        sarc@,
                        out_path@,
                        (i + 1) as nat,
                        sarc@.entries.len(),
                        mtime,
                    );
                    lemma_emitted_within(before, sink.entries(), next, all);
                }
                return Err(e);
            },
        }
        i += 1;
    }
    proof {
        lemma_emitted_done(before, all);
    }
    Ok(())
}

/// Appends everything that the top-level container `file` adds to the
/// archive. Its own path is the root that every path below is relative to.
pub fn bundle_ninres(file: &ContainerNode, sink: &mut ArchiveSink) -> (r: Result<(), Error>)
    requires
        old(sink).wf(),
    ensures
        final(sink).wf(),
        final(sink).mtime() == old(sink).mtime(),
        emitted(
            old(sink).entries(),
            final(sink).entries(),
            node_entries(file@, Seq::<char>::empty(), old(sink).mtime()),
            r is Ok,
        ),
        r matches Err(e) ==> e is Io,
{
    let path = OutputPath::root();
    walk(file, sink, &path)
}

/// Every texture of `model` has a plain name.
pub open spec fn plain_model(model: ModelView) -> bool {
    forall|g: int, t: int|
        0 <= g < model.groups.len() && 0 <= t < model.groups[g].textures.len() ==> plain(
            #[trigger] model.groups[g].textures[t].name,
        )
}

/// Every name that `node`, found at `path`, is to add is made of plain texts:
/// the flattened path of every model container in it is plain, and so is the
/// name of every texture.
pub open spec fn plain_node(node: NodeView, path: Seq<char>) -> bool
    decreases node, 0nat,
{
    match node {
        NodeView::ModelContainer(model) => plain(flattened(path)) && plain_model(model),
        NodeView::FlatContainer(flat) => plain_entries(flat, path, flat.entries.len()),
    }
}

/// The same for the first `n` entries of `flat`.
pub open spec fn plain_entries(flat: FlatView, path: Seq<char>, n: nat) -> bool
    decreases flat, n,
{
    if n == 0 || n > flat.entries.len() {
        true
    } else {
        plain_entries(flat, path, (n - 1) as nat) && plain_entry(flat.entries[n - 1], path)
    }
}

/// The same for one entry.
pub open spec fn plain_entry(entry: FlatEntryView, path: Seq<char>) -> bool
    decreases entry, 0nat,
{
    match (entry.name, entry.decoded) {
        (Some(name), Some(decoded)) => plain_node(
            decoded.node,
            entry_path(path, name, decoded.extension),
        ),
        _ => true,
    }
}

/// The flattened form of a path without backslash, NUL and colon is plain.
pub proof fn lemma_flattened_is_plain(path: Seq<char>)
    requires
        !path.contains('\\'),
        !path.contains('\0'),
        !path.contains(':'),
    ensures
        plain(flattened(path)),
{
    let flat = flattened(path);
    lemma_flattened_has_no_separator(path);
    lemma_flattened_brings_nothing_in(path, '\\');
    lemma_flattened_brings_nothing_in(path, '\0');
    lemma_flattened_brings_nothing_in(path, ':');
    assert forall|i: int| 0 <= i < flat.len() implies plain_char(#[trigger] flat[i]) by {
        assert(flat.contains(flat[i]));
    }
}

/// Textures with plain names, below a plain path, are written out in full.
pub proof fn lemma_plain_textures_are_written(
    flat: Seq<char>,
    textures: Seq<TextureView>,
    n: nat,
    mtime: u64,
)
    requires
        plain(flat),
        n <= textures.len(),
        forall|t: int| 0 <= t < textures.len() ==> plain(#[trigger] textures[t].name),
    ensures
        all_storable(textures_entries(flat, textures, n, mtime)),
    decreases n,
{
    if n > 0 {
        lemma_plain_textures_are_written(flat, textures, (n - 1) as nat, mtime);
        lemma_plain_texture_is_written(flat, textures[n - 1], mtime);
        lemma_written_concat(
            textures_entries(flat, textures, (n - 1) as nat, mtime),
            texture_entries(flat, textures[n - 1], mtime),
        );
    }
}

/// The same for the first `n` groups of a model container.
pub proof fn lemma_plain_groups_are_written(
    flat: Seq<char>,
    model: ModelView,
    n: nat,
    mtime: u64,
)
    requires
        plain(flat),
        plain_model(model),
        n <= model.groups.len(),
    ensures
        all_storable(groups_entries(flat, model.groups, n, mtime)),
    decreases n,
{
    if n > 0 {
        let group = model.groups[n - 1];
        lemma_plain_groups_are_written(flat, model, (n - 1) as nat, mtime);
        assert forall|t: int| 0 <= t < group.textures.len() implies plain(
            #[trigger] group.textures[t].name,
        ) by {
            assert(plain(model.groups[n - 1].textures[t].name));
        }
        lemma_plain_textures_are_written(flat, group.textures, group.textures.len(), mtime);
        lemma_written_concat(
            groups_entries(flat, model.groups, (n - 1) as nat, mtime),
            textures_entries(flat, group.textures, group.textures.len(), mtime),
        );
    }
}

/// When a walk succeeds: a container whose names are all plain is written out
/// in full.
pub proof fn lemma_plain_node_is_written(node: NodeView, path: Seq<char>, mtime: u64)
    requires
        plain_node(node, path),
    ensures
        all_storable(node_entries(node, path, mtime)),
    decreases node, 0nat,
{
    match node {
        NodeView::ModelContainer(model) => {
            lemma_plain_groups_are_written(flattened(path), model, model.groups.len(), mtime);
        },
        NodeView::FlatContainer(flat) => {
            lemma_plain_entries_are_written(flat, path, flat.entries.len(), mtime);
        },
    }
}

/// The same for the first `n` entries of a flat container.
pub proof fn lemma_plain_entries_are_written(flat: FlatView, path: Seq<char>, n: nat, mtime: u64)
    requires
        plain_entries(flat, path, n),
        n <= flat.entries.len(),
    ensures
        all_storable(flat_entries(flat, path, n, mtime)),
    decreases flat, n,
{
    if n > 0 {
        let entry = flat.entries[n - 1];
        assert(plain_entries(flat, path, (n - 1) as nat) && plain_entry(entry, path));
        lemma_plain_entries_are_written(flat, path, (n - 1) as nat, mtime);
        match (entry.name, entry.decoded) {
            (Some(name), Some(decoded)) => {
                assert(plain_node(decoded.node, entry_path(path, name, decoded.extension)));
                lemma_plain_node_is_written(
                    decoded.node,
                    entry_path(path, name, decoded.extension),
                    mtime,
                );
            },
            _ => {},
        }
        lemma_written_concat(
            flat_entries(flat, path, (n - 1) as nat, mtime),
            entry_entries(entry, path, mtime),
        );
    }
}

} // verus!
