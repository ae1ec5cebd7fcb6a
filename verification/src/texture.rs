//! Textures and what each of them adds to the archive: the whole image and,
//! for field textures, its visible tiles, each as a plain PNG and as a
//! faux-transparency PNG.

use crate::archive::{
    all_storable, emitted, lemma_every_entry_retrievable, lookup, names_unique, lemma_plain_concat, lemma_plain_name_is_storable, lemma_written_concat,
    plain, plain_char, lemma_emitted_after, lemma_emitted_all, lemma_emitted_done,
    lemma_emitted_within, lemma_pair_first_refused, recorded, storable, ArchiveEntry, ArchiveSink,
    EntryView,
};
use crate::error::Error;
use crate::pixels::{
    alpha_all_zero, buffer_len, cropped, has_pixels, png_encoding, with_alpha, Compression, Filter,
    ImageView, RgbaImage,
};
use crate::text::{
    append_chars, chars_of, contains, decimal, decimal_of, has_infix, has_prefix,
    lemma_decimal_is_digits, lemma_decimal_is_injective, lemma_digits_end_alike, starts_with,
    string_of,
};
use vstd::prelude::*;

verus! {

/// Side of a tile, in pixels.
pub const TILE_SIZE: u32 = 16;

/// Tiles in a row of the grid.
pub const TILE_COLUMNS: u64 = 16;

/// Rows of the grid.
pub const TILE_ROWS: u64 = 48;

/// Tiles of the grid.
pub const TILE_COUNT: u64 = TILE_COLUMNS * TILE_ROWS;

/// The alpha of every pixel of a faux-transparency image.
pub const FAUX_ALPHA: u8 = 192;

/// One texture of a model container. `mips` holds, for each mip level, the
/// slices of that level; only the first slice of a level is used.
pub struct Texture {
    pub name: String,
    pub width: u32,
    pub height: u32,
    pub mips: Vec<Vec<Vec<u8>>>,
}

/// A named set of textures, as a model container embeds it.
pub struct TextureGroup {
    pub name: String,
    pub textures: Vec<Texture>,
}

/// A texture as the contracts see it.
pub struct TextureView {
    pub name: Seq<char>,
    pub width: u32,
    pub height: u32,
    pub mips: Seq<Seq<Seq<u8>>>,
}

/// A texture group as the contracts see it.
pub struct GroupView {
    pub name: Seq<char>,
    pub textures: Seq<TextureView>,
}

impl View for Texture {
    type V = TextureView;

    open spec fn view(&self) -> TextureView {
        TextureView {
            name: self.name@,
            width: self.width,
            height: self.height,
            mips: Seq::new(
                self.mips.len() as nat,
                |i: int| Seq::new(self.mips[i].len() as nat, |j: int| self.mips[i][j]@),
            ),
        }
    }
}

impl View for TextureGroup {
    type V = GroupView;

    open spec fn view(&self) -> GroupView {
        GroupView {
            name: self.name@,
            textures: Seq::new(self.textures.len() as nat, |i: int| self.textures[i]@),
        }
    }
}

/// The prefix of a texture made for a platform that is not served.
pub open spec fn marker_excluded() -> Seq<char> {
    seq!['W', 'U', '_']
}

/// What the name of a field texture holds.
pub open spec fn marker_field() -> Seq<char> {
    seq!['_', 'F', 'i', 'e', 'l', 'd', '_']
}

/// What the name of an animated field texture holds.
pub open spec fn marker_field_anime() -> Seq<char> {
    seq!['_', 'F', 'i', 'e', 'l', 'd', '_', 'a', 'n', 'i', 'm', 'e', '_']
}

/// The end of every entry name.
pub open spec fn png_suffix() -> Seq<char> {
    seq!['.', 'p', 'n', 'g']
}

/// A texture of this name is left out altogether.
pub open spec fn excluded(name: Seq<char>) -> bool {
    has_prefix(name, marker_excluded())
}

/// A texture of this name is cut into tiles: a field, but not an animated one.
pub open spec fn tiled(name: Seq<char>) -> bool {
    has_infix(name, marker_field()) && !has_infix(name, marker_field_anime())
}

/// The name of an entry: the flattened path, the texture's name (behind a `0`
/// for the faux-transparency variant), the mip level and, for a tile, its index,
/// with underscores between them.
pub open spec fn entry_name(
    flat: Seq<char>,
    faux: bool,
    texture: Seq<char>,
    mip: nat,
    tile: Option<nat>,
) -> Seq<char> {
    flat + seq!['_'] + (if faux {
        seq!['0']
    } else {
        Seq::empty()
    }) + texture + seq!['_'] + decimal(mip) + (match tile {
        Some(t) => seq!['_'] + decimal(t),
        None => Seq::empty(),
    }) + png_suffix()
}

/// The PNG file of an image: best compression, no filter.
pub open spec fn png_of(img: ImageView) -> Seq<u8> {
    png_encoding(img.pixels, img.width as u32, img.height as u32, Compression::Best, Filter::NoFilter)
}

/// The faux-transparency variant of an image.
pub open spec fn faux_of(img: ImageView) -> ImageView {
    ImageView { width: img.width, height: img.height, pixels: with_alpha(img.pixels, FAUX_ALPHA) }
}

/// The two entries of one image: plain, then faux-transparent.
pub open spec fn image_pair(
    flat: Seq<char>,
    texture: Seq<char>,
    mip: nat,
    tile: Option<nat>,
    img: ImageView,
    mtime: u64,
) -> Seq<EntryView> {
    seq![
        recorded(entry_name(flat, false, texture, mip, tile), png_of(img), mtime),
        recorded(entry_name(flat, true, texture, mip, tile), png_of(faux_of(img)), mtime),
    ]
}

/// Tile `t` of the grid over `img`: column `t % 16`, row `t / 16`.
pub open spec fn tile_of(img: ImageView, t: nat) -> ImageView {
    cropped(
        img,
        (t % (TILE_COLUMNS as nat)) * (TILE_SIZE as nat),
        (t / (TILE_COLUMNS as nat)) * (TILE_SIZE as nat),
        TILE_SIZE as nat,
        TILE_SIZE as nat,
    )
}

/// What tile `t` adds: nothing where it is fully transparent, else its pair.
pub open spec fn tile_entries(
    flat: Seq<char>,
    texture: Seq<char>,
    mip: nat,
    img: ImageView,
    t: nat,
    mtime: u64,
) -> Seq<EntryView> {
    if alpha_all_zero(tile_of(img, t).pixels) {
        Seq::empty()
    } else {
        image_pair(flat, texture, mip, Some(t), tile_of(img, t), mtime)
    }
}

/// What the first `n` tiles add, in the order of their indices.
pub open spec fn tiles_entries(
    flat: Seq<char>,
    texture: Seq<char>,
    mip: nat,
    img: ImageView,
    n: nat,
    mtime: u64,
) -> Seq<EntryView>
    decreases n,
{
    if n == 0 {
        Seq::empty()
    } else {
        tiles_entries(flat, texture, mip, img, (n - 1) as nat, mtime) + tile_entries(
            flat,
            texture,
            mip,
            img,
            (n - 1) as nat,
            mtime,
        )
    }
}

/// A texture dimension as it is used: at least 1.
pub open spec fn at_least_one(d: u32) -> nat {
    if d == 0 {
        1
    } else {
        d as nat
    }
}

/// The image of mip level `mip` of `tex`: its first slice, where there is one
/// and it has exactly the bytes of the texture's size.
pub open spec fn mip_image(tex: TextureView, mip: int) -> Option<ImageView> {
    if tex.mips[mip].len() == 0 {
        None
    } else if tex.mips[mip][0].len() != buffer_len(
        at_least_one(tex.width),
        at_least_one(tex.height),
    ) {
        None
    } else {
        Some(
            ImageView {
                width: at_least_one(tex.width),
                height: at_least_one(tex.height),
                pixels: tex.mips[mip][0],
            },
        )
    }
}

/// What mip level `mip` of `tex` adds: the tiles of a tiled texture, then the
/// whole image.
pub open spec fn mip_entries(flat: Seq<char>, tex: TextureView, mip: nat, mtime: u64) -> Seq<
    EntryView,
> {
    match mip_image(tex, mip as int) {
        None => Seq::empty(),
        Some(img) => (if tiled(tex.name) {
            tiles_entries(flat, tex.name, mip, img, TILE_COUNT as nat, mtime)
        } else {
            Seq::empty()
        }) + image_pair(flat, tex.name, mip, None, img, mtime),
    }
}

/// What the first `n` mip levels of `tex` add.
pub open spec fn mips_entries(flat: Seq<char>, tex: TextureView, n: nat, mtime: u64) -> Seq<
    EntryView,
>
    decreases n,
{
    if n == 0 {
        Seq::empty()
    } else {
        mips_entries(flat, tex, (n - 1) as nat, mtime) + mip_entries(
            flat,
            tex,
            (n - 1) as nat,
            mtime,
        )
    }
}

/// What `tex` adds to the archive.
pub open spec fn texture_entries(flat: Seq<char>, tex: TextureView, mtime: u64) -> Seq<EntryView> {
    if excluded(tex.name) {
        Seq::empty()
    } else {
        mips_entries(flat, tex, tex.mips.len() as nat, mtime)
    }
}

/// The first `n` tiles' entries begin the first `m` tiles' entries.
pub proof fn lemma_tiles_prefix(
    flat: Seq<char>,
    texture: Seq<char>,
    mip: nat,
    img: ImageView,
    n: nat,
    m: nat,
    mtime: u64,
)
    requires
        n <= m,
    ensures
        tiles_entries(flat, texture, mip, img, n, mtime).len() <= tiles_entries(
            flat,
            texture,
            mip,
            img,
            m,
            mtime,
        ).len(),
        tiles_entries(flat, texture, mip, img, m, mtime).take(
            tiles_entries(flat, texture, mip, img, n, mtime).len() as int,
        ) == tiles_entries(flat, texture, mip, img, n, mtime),
    decreases m,
{
    let short = tiles_entries(flat, texture, mip, img, n, mtime);
    let long = tiles_entries(flat, texture, mip, img, m, mtime);
    if n == m {
        assert(long.take(short.len() as int) =~= short);
    } else {
        lemma_tiles_prefix(flat, texture, mip, img, n, (m - 1) as nat, mtime);
        let prev = tiles_entries(flat, texture, mip, img, (m - 1) as nat, mtime);
        assert(long.take(short.len() as int) =~= prev.take(short.len() as int));
    }
}

/// The first `n` mip levels' entries begin the first `m` mip levels' entries.
pub proof fn lemma_mips_prefix(flat: Seq<char>, tex: TextureView, n: nat, m: nat, mtime: u64)
    requires
        n <= m,
    ensures
        mips_entries(flat, tex, n, mtime).len() <= mips_entries(flat, tex, m, mtime).len(),
        mips_entries(flat, tex, m, mtime).take(mips_entries(flat, tex, n, mtime).len() as int)
            == mips_entries(flat, tex, n, mtime),
    decreases m,
{
    let short = mips_entries(flat, tex, n, mtime);
    let long = mips_entries(flat, tex, m, mtime);
    if n == m {
        assert(long.take(short.len() as int) =~= short);
    } else {
        lemma_mips_prefix(flat, tex, n, (m - 1) as nat, mtime);
        let prev = mips_entries(flat, tex, (m - 1) as nat, mtime);
        assert(long.take(short.len() as int) =~= prev.take(short.len() as int));
    }
}

/// Whether a texture of this name is left out altogether.
pub fn is_excluded(name: &Vec<char>) -> (b: bool)
    ensures
        b == excluded(name@),
{
    let marker: Vec<char> = vec!['W', 'U', '_'];
    assert(marker@ =~= marker_excluded());
    starts_with(name, &marker)
}

/// Whether a texture of this name is cut into tiles.
pub fn is_tiled(name: &Vec<char>) -> (b: bool)
    ensures
        b == tiled(name@),
{
    let field: Vec<char> = vec!['_', 'F', 'i', 'e', 'l', 'd', '_'];
    let anime: Vec<char> = vec!['_', 'F', 'i', 'e', 'l', 'd', '_', 'a', 'n', 'i', 'm', 'e', '_'];
    assert(field@ =~= marker_field());
    assert(anime@ =~= marker_field_anime());
    contains(name, &field) && !contains(name, &anime)
}

/// The name of an entry.
pub fn entry_name_of(
    flat: &Vec<char>,
    faux: bool,
    texture: &Vec<char>,
    mip: u64,
    tile: Option<u64>,
) -> (name: Vec<char>)
    ensures
        name@ == entry_name(
            flat@,
            faux,
            texture@,
            mip as nat,
            match tile {
                Some(t) => Some(t as nat),
                None => None,
            },
        ),
{
    let mut name: Vec<char> = Vec::new();
    append_chars(&mut name, flat);
    name.push('_');
    if faux {
        name.push('0');
    }
    append_chars(&mut name, texture);
    name.push('_');
    let digits = decimal_of(mip);
    append_chars(&mut name, &digits);
    if let Some(t) = tile {
        name.push('_');
        let digits = decimal_of(t);
        append_chars(&mut name, &digits);
    }
    name.push('.');
    name.push('p');
    name.push('n');
    name.push('g');
    assert(name@ =~= entry_name(
        flat@,
        faux,
        texture@,
        mip as nat,
        match tile {
            Some(t) => Some(t as nat),
            None => None,
        },
    ));
    name
}

/// Encodes `image` as PNG and appends it to `sink` under `file_name`. It
/// succeeds exactly where the image has a pixel and the name can be stored as
/// it is; a failure leaves the sink as it was.
pub fn write_image(image: &RgbaImage, file_name: &Vec<char>, sink: &mut ArchiveSink) -> (r: Result<
    (),
    Error,
>)
    requires
        image.wf(),
        old(sink).wf(),
    ensures
        final(sink).wf(),
        final(sink).mtime() == old(sink).mtime(),
        r is Ok <==> has_pixels(image@) && storable(file_name@),
        r is Ok ==> final(sink).entries() == old(sink).entries().push(
            recorded(file_name@, png_of(image@), old(sink).mtime()),
        ),
        r is Err ==> final(sink).entries() == old(sink).entries(),
        r matches Err(e) ==> if has_pixels(image@) {
            e is Io
        } else {
            e is Image
        },
{
    let data = match image.encode_png(Compression::Best, Filter::NoFilter) {
        Ok(data) => data,
        Err(e) => {
            return Err(e);
        },
    };
    let entry = ArchiveEntry { name: string_of(file_name), data };
    sink.append(&entry)
}

/// Appends the pair of `image`: the plain PNG, then the faux-transparency
/// PNG. An image without pixels is refused and nothing is written. Otherwise
/// the step stops at the first of the two names that cannot be stored.
pub fn write_variants(
    image: &RgbaImage,
    flat: &Vec<char>,
    texture: &Vec<char>,
    mip: u64,
    tile: Option<u64>,
    sink: &mut ArchiveSink,
) -> (r: Result<(), Error>)
    requires
        image.wf(),
        old(sink).wf(),
    ensures
        final(sink).wf(),
        final(sink).mtime() == old(sink).mtime(),
        !has_pixels(image@) ==> r is Err && final(sink).entries() == old(sink).entries(),
        has_pixels(image@) ==> emitted(
            old(sink).entries(),
            final(sink).entries(),
            image_pair(
                flat@,
                texture@,
                mip as nat,
                match tile {
                    Some(t) => Some(t as nat),
                    None => None,
                },
                image@,
                old(sink).mtime(),
            ),
            r is Ok,
        ),
        r matches Err(e) ==> if has_pixels(image@) {
            e is Io
        } else {
            e is Image
        },
{
    let ghost before = sink.entries();
    let ghost pair = image_pair(
        flat@,
        texture@,
        mip as nat,
        match tile {
            Some(t) => Some(t as nat),
            None => None,
        },
        image@,
        sink.mtime(),
    );
    proof {
        lemma_pair_first_refused(pair[0], pair[1]);
        assert(pair =~= seq![pair[0], pair[1]]);
    }
    let plain_name = entry_name_of(flat, false, texture, mip, tile);
    match write_image(image, &plain_name, sink) {
        Ok(()) => {},
        Err(e) => {
            assert(sink.entries() =~= before + pair.take(0));
            return Err(e);
        },
    }
    let faux = image.with_alpha(FAUX_ALPHA);
    assert(faux@ == faux_of(image@));
    let faux_name = entry_name_of(flat, true, texture, mip, tile);
    match write_image(&faux, &faux_name, sink) {
        Ok(()) => {
            assert(sink.entries() =~= before + pair.take(2));
            Ok(())
        },
        Err(e) => {
            assert(sink.entries() =~= before + pair.take(1));
            Err(e)
        },
    }
}

/// Appends what the tiles of `image` add: for each tile of the grid that is
/// not fully transparent, in the order of the indices, its pair. The step
/// stops at the first name that cannot be stored.
pub fn write_tiles(
    image: &RgbaImage,
    flat: &Vec<char>,
    texture: &Vec<char>,
    mip: u64,
    sink: &mut ArchiveSink,
) -> (r: Result<(), Error>)
    requires
        image.wf(),
        old(sink).wf(),
    ensures
        final(sink).wf(),
        final(sink).mtime() == old(sink).mtime(),
        emitted(
            old(sink).entries(),
            final(sink).entries(),
            tiles_entries(
                flat@,
                texture@,
                mip as nat,
                image@,
                TILE_COUNT as nat,
                old(sink).mtime(),
            ),
            r is Ok,
        ),
        r matches Err(e) ==> e is Io,
{
    let ghost before = sink.entries();
    let ghost mtime = sink.mtime();
    let ghost all = tiles_entries(flat@, texture@, mip as nat, image@, TILE_COUNT as nat, mtime);
    let mut t: u64 = 0;
    assert(sink.entries() =~= before + tiles_entries(flat@, texture@, mip as nat, image@, 0, mtime));
    while t < TILE_COUNT
        invariant
            t <= TILE_COUNT,
            image.wf(),
            sink.wf(),
            before == old(sink).entries(),
            mtime == old(sink).mtime(),
            all == tiles_entries(flat@, texture@, mip as nat, image@, TILE_COUNT as nat, mtime),
            sink.mtime() == mtime,
            all_storable(tiles_entries(flat@, texture@, mip as nat, image@, t as nat, mtime)),
            sink.entries() == before + tiles_entries(
                flat@,
                texture@,
                mip as nat,
                image@,
                t as nat,
                mtime,
            ),
        decreases TILE_COUNT - t,
    {
        let ghost done = tiles_entries(flat@, texture@, mip as nat, image@, t as nat, mtime);
        let ghost next = tiles_entries(flat@, texture@, mip as nat, image@, (t + 1) as nat, mtime);
        let x = (t % TILE_COLUMNS) as u32 * TILE_SIZE;
        let y = (t / TILE_COLUMNS) as u32 * TILE_SIZE;
        let tile = image.crop(x, y, TILE_SIZE, TILE_SIZE);
        assert(tile@ == tile_of(image@, t as nat));
        if tile.is_fully_transparent() {
            assert(next =~= done);
        } else {
            let ghost pair = image_pair(flat@, texture@, mip as nat, Some(t as nat), tile@, mtime);
            assert(next == done + pair);
            let r = write_variants(&tile, flat, texture, mip, Some(t), sink);
            proof {
                lemma_emitted_after(before, sink.entries(), done, pair, r is Ok);
            }
            match r {
                Ok(()) => {
                    proof {
                        lemma_emitted_all(before, sink.entries(), next);
                    }
                },
                Err(e) => {
                    proof {
                        lemma_tiles_prefix(
                            flat@,
                            texture@,
                            mip as nat,
                            image@,
                            (t + 1) as nat,
                            TILE_COUNT as nat,
                            mtime,
                        );
                        lemma_emitted_within(before, sink.entries(), next, all);
                    }
                    return Err(e);
                },
            }
        }
        t += 1;
    }
    proof {
        lemma_emitted_done(before, all);
    }
    Ok(())
}

/// Appends what mip level `mip` of `texture` adds. A level without a slice,
/// or whose first slice does not have the bytes of the texture's size, adds
/// nothing and is no failure. The step stops at the first name that cannot
/// be stored.
pub fn write_mip(
    texture: &Texture,
    name: &Vec<char>,
    mip: usize,
    flat: &Vec<char>,
    sink: &mut ArchiveSink,
) -> (r: Result<(), Error>)
    requires
        mip < texture.mips.len(),
        name@ == texture@.name,
        old(sink).wf(),
    ensures
        final(sink).wf(),
        final(sink).mtime() == old(sink).mtime(),
        emitted(
            old(sink).entries(),
            final(sink).entries(),
            mip_entries(flat@, texture@, mip as nat, old(sink).mtime()),
            r is Ok,
        ),
        r matches Err(e) ==> e is Io,
{
    let ghost before = sink.entries();
    let ghost mtime = sink.mtime();
    assert(before + Seq::<EntryView>::empty() =~= before);
    proof {
        lemma_emitted_done(before, Seq::<EntryView>::empty());
    }
    let slices = &texture.mips[mip];
    if slices.len() == 0 {
        return Ok(());
    }
    let width = if texture.width == 0 { 1 } else { texture.width };
    let height = if texture.height == 0 { 1 } else { texture.height };
    let data = slices[0].clone();
    assert(data@ =~= slices[0]@);
    let image = match RgbaImage::from_raw(width, height, data) {
        Some(image) => image,
        None => {
            return Ok(());
        },
    };
    let ghost pair = image_pair(flat@, name@, mip as nat, None, image@, mtime);
    let ghost tiles = if tiled(name@) {
        tiles_entries(flat@, name@, mip as nat, image@, TILE_COUNT as nat, mtime)
    } else {
        Seq::empty()
    };
    assert(mip_entries(flat@, texture@, mip as nat, mtime) == tiles + pair);
    if is_tiled(name) {
        match write_tiles(&image, flat, name, mip as u64, sink) {
            Ok(()) => {
                proof {
                    lemma_emitted_all(before, sink.entries(), tiles);
                }
            },
            Err(e) => {
                proof {
                    assert((tiles + pair).take(tiles.len() as int) =~= tiles);
                    lemma_emitted_within(before, sink.entries(), tiles, tiles + pair);
                }
                return Err(e);
            },
        }
    }
    let r = write_variants(&image, flat, name, mip as u64, None, sink);
    proof {
        lemma_emitted_after(before, sink.entries(), tiles, pair, r is Ok);
    }
    r
}

/// Appends what `texture` adds to the archive, under names that begin with
/// `flat`. A texture made for a platform that is not served adds nothing. The
/// step stops at the first name that cannot be stored.
pub fn decompose(texture: &Texture, flat: &Vec<char>, sink: &mut ArchiveSink) -> (r: Result<
    (),
    Error,
>)
    requires
        old(sink).wf(),
    ensures
        final(sink).wf(),
        final(sink).mtime() == old(sink).mtime(),
        emitted(
            old(sink).entries(),
            final(sink).entries(),
            texture_entries(flat@, texture@, old(sink).mtime()),
            r is Ok,
        ),
        r matches Err(e) ==> e is Io,
{
    let ghost before = sink.entries();
    let ghost mtime = sink.mtime();
    assert(before + Seq::<EntryView>::empty() =~= before);
    let name = chars_of(texture.name.as_str());
    if is_excluded(&name) {
        proof {
            lemma_emitted_done(before, Seq::<EntryView>::empty());
        }
        return Ok(());
    }
    let ghost all = mips_entries(flat@, texture@, texture.mips.len() as nat, mtime);
    let mut mip: usize = 0;
    while mip < texture.mips.len()
        invariant
            mip <= texture.mips.len(),
            name@ == texture@.name,
            sink.wf(),
            before == old(sink).entries(),
            mtime == old(sink).mtime(),
            all == mips_entries(flat@, texture@, texture.mips.len() as nat, mtime),
            !excluded(texture@.name),
            sink.mtime() == mtime,
            all_storable(mips_entries(flat@, texture@, mip as nat, mtime)),
            sink.entries() == before + mips_entries(flat@, texture@, mip as nat, mtime),
        decreases texture.mips.len() - mip,
    {
        let ghost done = mips_entries(flat@, texture@, mip as nat, mtime);
        let ghost part = mip_entries(flat@, texture@, mip as nat, mtime);
        let ghost next = mips_entries(flat@, texture@, (mip + 1) as nat, mtime);
        assert(next == done + part);
        let r = write_mip(texture, &name, mip, flat, sink);
        proof {
            lemma_emitted_after(before, sink.entries(), done, part, r is Ok);
        }
        match r {
            Ok(()) => {
                proof {
                    lemma_emitted_all(before, sink.entries(), next);
                }
            },
            Err(e) => {
                proof {
                    lemma_mips_prefix(
                        flat@,
                        texture@,
                        (mip + 1) as nat,
                        texture.mips.len() as nat,
                        mtime,
                    );
                    lemma_emitted_within(before, sink.entries(), next, all);
                }
                return Err(e);
            },
        }
        mip += 1;
    }
    proof {
        lemma_emitted_done(before, all);
    }
    Ok(())
}

/// A texture that is not cut into tiles adds, for each mip level that has an
/// image, exactly the pair of the whole image, and nothing for a tile.
pub proof fn lemma_untiled_mip_adds_whole_pair(
    flat: Seq<char>,
    tex: TextureView,
    mip: nat,
    mtime: u64,
)
    requires
        !tiled(tex.name),
        mip_image(tex, mip as int) is Some,
    ensures
        mip_entries(flat, tex, mip, mtime) == image_pair(
            flat,
            tex.name,
            mip,
            None,
            mip_image(tex, mip as int)->0,
            mtime,
        ),
        mip_entries(flat, tex, mip, mtime).len() == 2,
{
    let img = mip_image(tex, mip as int)->0;
    assert(Seq::<EntryView>::empty() + image_pair(flat, tex.name, mip, None, img, mtime)
        =~= image_pair(flat, tex.name, mip, None, img, mtime));
}

/// The number of the first `n` mip levels of `tex` that have an image.
pub open spec fn mips_with_image(tex: TextureView, n: nat) -> nat
    decreases n,
{
    if n == 0 {
        0
    } else {
        mips_with_image(tex, (n - 1) as nat) + (if mip_image(tex, n - 1) is Some {
            1nat
        } else {
            0nat
        })
    }
}

/// A texture that is neither left out nor cut into tiles adds two entries for
/// each mip level that has an image.
pub proof fn lemma_untiled_texture_adds_two_per_mip(
    flat: Seq<char>,
    tex: TextureView,
    n: nat,
    mtime: u64,
)
    requires
        !tiled(tex.name),
        n <= tex.mips.len(),
    ensures
        mips_entries(flat, tex, n, mtime).len() == 2 * mips_with_image(tex, n),
        !excluded(tex.name) && n == tex.mips.len() ==> texture_entries(flat, tex, mtime).len() == 2
            * mips_with_image(tex, n),
    decreases n,
{
    if n > 0 {
        lemma_untiled_texture_adds_two_per_mip(flat, tex, (n - 1) as nat, mtime);
        if mip_image(tex, n - 1) is Some {
            lemma_untiled_mip_adds_whole_pair(flat, tex, (n - 1) as nat, mtime);
        }
    }
}

/// A tile whose alpha is zero throughout adds nothing, neither plain nor
/// faux-transparent: the entries up to and with it are those before it.
pub proof fn lemma_transparent_tile_adds_nothing(
    flat: Seq<char>,
    texture: Seq<char>,
    mip: nat,
    img: ImageView,
    t: nat,
    mtime: u64,
)
    requires
        alpha_all_zero(tile_of(img, t).pixels),
    ensures
        tile_entries(flat, texture, mip, img, t, mtime) == Seq::<EntryView>::empty(),
        tiles_entries(flat, texture, mip, img, t + 1, mtime) == tiles_entries(
            flat,
            texture,
            mip,
            img,
            t,
            mtime,
        ),
{
    assert(tiles_entries(flat, texture, mip, img, t + 1, mtime) =~= tiles_entries(
        flat,
        texture,
        mip,
        img,
        t,
        mtime,
    ));
}

/// The number of the first `n` tiles of the grid over `img` that are not
/// fully transparent.
pub open spec fn visible_tiles(img: ImageView, n: nat) -> nat
    decreases n,
{
    if n == 0 {
        0
    } else {
        visible_tiles(img, (n - 1) as nat) + (if alpha_all_zero(tile_of(img, (n - 1) as nat).pixels) {
            0nat
        } else {
            1nat
        })
    }
}

/// The tiles add two entries for each tile that is not fully transparent.
pub proof fn lemma_tiles_add_two_per_visible_tile(
    flat: Seq<char>,
    texture: Seq<char>,
    mip: nat,
    img: ImageView,
    n: nat,
    mtime: u64,
)
    ensures
        tiles_entries(flat, texture, mip, img, n, mtime).len() == 2 * visible_tiles(img, n),
    decreases n,
{
    if n > 0 {
        lemma_tiles_add_two_per_visible_tile(flat, texture, mip, img, (n - 1) as nat, mtime);
    }
}

/// A mip level of a tiled texture that has an image adds two entries for
/// each visible tile of the grid, and two for the whole image.
pub proof fn lemma_tiled_mip_entry_count(flat: Seq<char>, tex: TextureView, mip: nat, mtime: u64)
    requires
        tiled(tex.name),
        mip_image(tex, mip as int) is Some,
    ensures
        mip_entries(flat, tex, mip, mtime).len() == 2 * visible_tiles(
            mip_image(tex, mip as int)->0,
            TILE_COUNT as nat,
        ) + 2,
{
    lemma_tiles_add_two_per_visible_tile(
        flat,
        tex.name,
        mip,
        mip_image(tex, mip as int)->0,
        TILE_COUNT as nat,
        mtime,
    );
}

/// A tile that is written is written twice: as it is, and with the same
/// colour bytes and every alpha byte at the fixed value.
pub proof fn lemma_faux_variant_keeps_colour(
    flat: Seq<char>,
    texture: Seq<char>,
    mip: nat,
    img: ImageView,
    t: nat,
    mtime: u64,
)
    requires
        !alpha_all_zero(tile_of(img, t).pixels),
    ensures
        tile_entries(flat, texture, mip, img, t, mtime).len() == 2,
        tile_entries(flat, texture, mip, img, t, mtime)[0].data == png_of(tile_of(img, t)),
        tile_entries(flat, texture, mip, img, t, mtime)[1].data == png_of(
            faux_of(tile_of(img, t)),
        ),
        faux_of(tile_of(img, t)).width == tile_of(img, t).width,
        faux_of(tile_of(img, t)).height == tile_of(img, t).height,
        faux_of(tile_of(img, t)).pixels.len() == tile_of(img, t).pixels.len(),
        forall|i: int|
            0 <= i < tile_of(img, t).pixels.len() ==> #[trigger] faux_of(tile_of(img, t)).pixels[i]
                == (if i % 4 == 3 {
                FAUX_ALPHA
            } else {
                tile_of(img, t).pixels[i]
            }),
{
}

/// Below a plain path, the entries of a texture with a plain name have names
/// that can be stored as they are.
pub proof fn lemma_entry_name_is_storable(
    flat: Seq<char>,
    faux: bool,
    texture: Seq<char>,
    mip: nat,
    tile: Option<nat>,
)
    requires
        plain(flat),
        plain(texture),
    ensures
        storable(entry_name(flat, faux, texture, mip, tile)),
{
    let mark: Seq<char> = if faux {
        seq!['0']
    } else {
        Seq::empty()
    };
    let index: Seq<char> = match tile {
        Some(t) => seq!['_'] + decimal(t),
        None => Seq::empty(),
    };
    lemma_decimal_is_digits(mip);
    assert(plain(decimal(mip))) by {
        assert forall|i: int| 0 <= i < decimal(mip).len() implies plain_char(
            #[trigger] decimal(mip)[i],
        ) by {}
    }
    assert(plain(index)) by {
        match tile {
            Some(t) => {
                lemma_decimal_is_digits(t);
                assert forall|i: int| 0 <= i < decimal(t).len() implies plain_char(
                    #[trigger] decimal(t)[i],
                ) by {}
                lemma_plain_concat(seq!['_'], decimal(t));
            },
            None => {},
        }
    }
    lemma_plain_concat(flat, seq!['_']);
    lemma_plain_concat(flat + seq!['_'], mark);
    lemma_plain_concat(flat + seq!['_'] + mark, texture);
    lemma_plain_concat(flat + seq!['_'] + mark + texture, seq!['_']);
    lemma_plain_concat(flat + seq!['_'] + mark + texture + seq!['_'], decimal(mip));
    lemma_plain_concat(flat + seq!['_'] + mark + texture + seq!['_'] + decimal(mip), index);
    lemma_plain_concat(
        flat + seq!['_'] + mark + texture + seq!['_'] + decimal(mip) + index,
        png_suffix(),
    );
    lemma_plain_name_is_storable(entry_name(flat, faux, texture, mip, tile));
}

/// Below a plain path, every name that a texture with a plain name adds can
/// be stored as it is: the texture is written out in full.
pub proof fn lemma_plain_texture_is_written(flat: Seq<char>, tex: TextureView, mtime: u64)
    requires
        plain(flat),
        plain(tex.name),
    ensures
        all_storable(texture_entries(flat, tex, mtime)),
{
    lemma_plain_mips_are_written(flat, tex, tex.mips.len(), mtime);
}

/// The same for the first `n` mip levels.
pub proof fn lemma_plain_mips_are_written(flat: Seq<char>, tex: TextureView, n: nat, mtime: u64)
    requires
        plain(flat),
        plain(tex.name),
    ensures
        all_storable(mips_entries(flat, tex, n, mtime)),
    decreases n,
{
    if n > 0 {
        let mip = (n - 1) as nat;
        lemma_plain_mips_are_written(flat, tex, mip, mtime);
        match mip_image(tex, mip as int) {
            None => {},
            Some(img) => {
                let tiles = if tiled(tex.name) {
                    tiles_entries(flat, tex.name, mip, img, TILE_COUNT as nat, mtime)
                } else {
                    Seq::empty()
                };
                if tiled(tex.name) {
                    lemma_plain_tiles_are_written(
                        flat,
                        tex.name,
                        mip,
                        img,
                        TILE_COUNT as nat,
                        mtime,
                    );
                }
                lemma_plain_pair_is_written(flat, tex.name, mip, None, img, mtime);
                lemma_written_concat(tiles, image_pair(flat, tex.name, mip, None, img, mtime));
            },
        }
        lemma_written_concat(
            mips_entries(flat, tex, mip, mtime),
            mip_entries(flat, tex, mip, mtime),
        );
    }
}

/// The same for the first `n` tiles.
pub proof fn lemma_plain_tiles_are_written(
    flat: Seq<char>,
    texture: Seq<char>,
    mip: nat,
    img: ImageView,
    n: nat,
    mtime: u64,
)
    requires
        plain(flat),
        plain(texture),
    ensures
        all_storable(tiles_entries(flat, texture, mip, img, n, mtime)),
    decreases n,
{
    if n > 0 {
        let t = (n - 1) as nat;
        lemma_plain_tiles_are_written(flat, texture, mip, img, t, mtime);
        if !alpha_all_zero(tile_of(img, t).pixels) {
            lemma_plain_pair_is_written(flat, texture, mip, Some(t), tile_of(img, t), mtime);
        }
        lemma_written_concat(
            tiles_entries(flat, texture, mip, img, t, mtime),
            tile_entries(flat, texture, mip, img, t, mtime),
        );
    }
}

/// The same for the pair of one image.
pub proof fn lemma_plain_pair_is_written(
    flat: Seq<char>,
    texture: Seq<char>,
    mip: nat,
    tile: Option<nat>,
    img: ImageView,
    mtime: u64,
)
    requires
        plain(flat),
        plain(texture),
    ensures
        all_storable(image_pair(flat, texture, mip, tile, img, mtime)),
{
    let pair = image_pair(flat, texture, mip, tile, img, mtime);
    lemma_entry_name_is_storable(flat, false, texture, mip, tile);
    lemma_entry_name_is_storable(flat, true, texture, mip, tile);
    lemma_pair_first_refused(pair[0], pair[1]);
    assert(pair =~= seq![pair[0], pair[1]]);
}

/// What ends an entry name: the mip level, the tile's index if it is a
/// tile's, and the suffix.
pub open spec fn name_tail(mip: nat, tile: Option<nat>) -> Seq<char> {
    decimal(mip) + (match tile {
        Some(t) => seq!['_'] + decimal(t),
        None => Seq::empty(),
    }) + png_suffix()
}

/// What follows the flattened path and its underscore in an entry name.
pub open spec fn name_body(faux: bool, texture: Seq<char>, mip: nat, tile: Option<nat>) -> Seq<
    char,
> {
    (if faux {
        seq!['0']
    } else {
        Seq::empty()
    }) + texture + seq!['_'] + name_tail(mip, tile)
}

/// The end of a name tells the mip level and the tile.
pub proof fn lemma_name_tail_is_injective(m1: nat, x1: Option<nat>, m2: nat, x2: Option<nat>)
    requires
        name_tail(m1, x1) == name_tail(m2, x2),
    ensures
        m1 == m2,
        x1 == x2,
{
    let i1: Seq<char> = match x1 {
        Some(t) => seq!['_'] + decimal(t),
        None => Seq::empty(),
    };
    let i2: Seq<char> = match x2 {
        Some(t) => seq!['_'] + decimal(t),
        None => Seq::empty(),
    };
    let r1 = i1 + png_suffix();
    let r2 = i2 + png_suffix();
    lemma_decimal_is_digits(m1);
    lemma_decimal_is_digits(m2);
    assert(r1[0] == if x1 is Some { '_' } else { '.' });
    assert(r2[0] == if x2 is Some { '_' } else { '.' });
    assert(name_tail(m1, x1) =~= decimal(m1) + r1);
    assert(name_tail(m2, x2) =~= decimal(m2) + r2);
    lemma_digits_end_alike(decimal(m1), r1, decimal(m2), r2);
    lemma_decimal_is_injective(m1, m2);
    match (x1, x2) {
        (Some(t1), Some(t2)) => {
            lemma_decimal_is_digits(t1);
            lemma_decimal_is_digits(t2);
            assert(r1.skip(1) =~= decimal(t1) + png_suffix());
            assert(r2.skip(1) =~= decimal(t2) + png_suffix());
            lemma_digits_end_alike(decimal(t1), png_suffix(), decimal(t2), png_suffix());
            lemma_decimal_is_injective(t1, t2);
        },
        (None, None) => {},
        _ => {
            assert(r1[0] != r2[0]);
        },
    }
}

/// The first `k` characters of a text are zeros where the text, followed by
/// an underscore, is itself behind a zero.
proof fn lemma_shifted_text_is_zeros(t: Seq<char>, r1: Seq<char>, r2: Seq<char>, k: int)
    requires
        t + seq!['_'] + r1 == seq!['0'] + t + seq!['_'] + r2,
        0 <= k <= t.len(),
    ensures
        forall|i: int| 0 <= i < k ==> t[i] == '0',
    decreases k,
{
    if k > 0 {
        lemma_shifted_text_is_zeros(t, r1, r2, k - 1);
        let x = t + seq!['_'] + r1;
        let y = seq!['0'] + t + seq!['_'] + r2;
        assert(x[k - 1] == t[k - 1]);
        if k == 1 {
            assert(y[0] == '0');
        } else {
            assert(y[k - 1] == t[k - 2]);
        }
    }
}

/// A plain name is never a faux name of the same texture.
pub proof fn lemma_plain_body_is_no_faux_body(
    texture: Seq<char>,
    m1: nat,
    x1: Option<nat>,
    m2: nat,
    x2: Option<nat>,
)
    ensures
        name_body(false, texture, m1, x1) != name_body(true, texture, m2, x2),
{
    let x = texture + seq!['_'] + name_tail(m1, x1);
    let y = seq!['0'] + texture + seq!['_'] + name_tail(m2, x2);
    assert(name_body(false, texture, m1, x1) =~= x);
    assert(name_body(true, texture, m2, x2) =~= y);
    if x == y {
        lemma_shifted_text_is_zeros(
            texture,
            name_tail(m1, x1),
            name_tail(m2, x2),
            texture.len() as int,
        );
        assert(x[texture.len() as int] == '_');
        if texture.len() == 0 {
            assert(y[0] == '0');
        } else {
            assert(y[texture.len() as int] == texture[texture.len() - 1]);
        }
    }
}

/// Texts that begin alike and are equal end alike.
proof fn lemma_same_beginning(p: Seq<char>, a: Seq<char>, b: Seq<char>)
    requires
        p + a == p + b,
    ensures
        a == b,
{
    assert((p + a).skip(p.len() as int) =~= a);
    assert((p + b).skip(p.len() as int) =~= b);
}

/// An entry name is the flattened path, an underscore and the body.
proof fn lemma_entry_name_parts(
    flat: Seq<char>,
    faux: bool,
    texture: Seq<char>,
    mip: nat,
    tile: Option<nat>,
)
    ensures
        entry_name(flat, faux, texture, mip, tile) == (flat + seq!['_']) + name_body(
            faux,
            texture,
            mip,
            tile,
        ),
{
    assert(entry_name(flat, faux, texture, mip, tile) =~= (flat + seq!['_']) + name_body(
        faux,
        texture,
        mip,
        tile,
    ));
}

/// The body of a name is the mark, the texture's name, an underscore and the
/// tail.
proof fn lemma_name_body_parts(faux: bool, texture: Seq<char>, mip: nat, tile: Option<nat>)
    ensures
        name_body(faux, texture, mip, tile) == ((if faux {
            seq!['0']
        } else {
            Seq::<char>::empty()
        }) + texture + seq!['_']) + name_tail(mip, tile),
{
}

/// Within one texture, a name tells which entry it is: the variant, the mip
/// level and the tile.
pub proof fn lemma_entry_name_is_injective(
    flat: Seq<char>,
    texture: Seq<char>,
    f1: bool,
    m1: nat,
    x1: Option<nat>,
    f2: bool,
    m2: nat,
    x2: Option<nat>,
)
    requires
        entry_name(flat, f1, texture, m1, x1) == entry_name(flat, f2, texture, m2, x2),
    ensures
        f1 == f2,
        m1 == m2,
        x1 == x2,
{
    let b1 = name_body(f1, texture, m1, x1);
    let b2 = name_body(f2, texture, m2, x2);
    lemma_entry_name_parts(flat, f1, texture, m1, x1);
    lemma_entry_name_parts(flat, f2, texture, m2, x2);
    lemma_same_beginning(flat + seq!['_'], b1, b2);
    if f1 != f2 {
        if f1 {
            lemma_plain_body_is_no_faux_body(texture, m2, x2, m1, x1);
        } else {
            lemma_plain_body_is_no_faux_body(texture, m1, x1, m2, x2);
        }
    } else {
        let q: Seq<char> = (if f1 {
            seq!['0']
        } else {
            Seq::<char>::empty()
        }) + texture + seq!['_'];
        lemma_name_body_parts(f1, texture, m1, x1);
        lemma_name_body_parts(f2, texture, m2, x2);
        lemma_same_beginning(q, name_tail(m1, x1), name_tail(m2, x2));
        lemma_name_tail_is_injective(m1, x1, m2, x2);
    }
}

/// No entry of `entries` is named `name`.
pub open spec fn no_entry_named(entries: Seq<EntryView>, name: Seq<char>) -> bool {
    forall|i: int| 0 <= i < entries.len() ==> (#[trigger] entries[i]).name != name
}

/// What holds of neither of two steps holds of both in a row.
proof fn lemma_no_entry_named_concat(a: Seq<EntryView>, b: Seq<EntryView>, name: Seq<char>)
    requires
        no_entry_named(a, name),
        no_entry_named(b, name),
    ensures
        no_entry_named(a + b, name),
{
    assert forall|i: int| 0 <= i < (a + b).len() implies (#[trigger] (a + b)[i]).name != name by {
        if i < a.len() {
            assert((a + b)[i] == a[i]);
        } else {
            assert((a + b)[i] == b[i - a.len()]);
        }
    }
}

/// The pair of one image is not named for another mip level or tile of the
/// same texture.
proof fn lemma_pair_is_not_named(
    flat: Seq<char>,
    texture: Seq<char>,
    m2: nat,
    x2: Option<nat>,
    img: ImageView,
    mtime: u64,
    faux: bool,
    mip: nat,
    tile: Option<nat>,
)
    requires
        !(m2 == mip && x2 == tile),
    ensures
        no_entry_named(
            image_pair(flat, texture, m2, x2, img, mtime),
            entry_name(flat, faux, texture, mip, tile),
        ),
{
    let pair = image_pair(flat, texture, m2, x2, img, mtime);
    let name = entry_name(flat, faux, texture, mip, tile);
    if pair[0].name == name {
        lemma_entry_name_is_injective(flat, texture, false, m2, x2, faux, mip, tile);
    }
    if pair[1].name == name {
        lemma_entry_name_is_injective(flat, texture, true, m2, x2, faux, mip, tile);
    }
}

/// The tiles of one mip level hold no entry named for a tile that is fully
/// transparent, nor for a tile of another level.
proof fn lemma_tiles_are_not_named(
    flat: Seq<char>,
    texture: Seq<char>,
    m2: nat,
    img: ImageView,
    n: nat,
    mtime: u64,
    faux: bool,
    mip: nat,
    t: nat,
)
    requires
        m2 == mip ==> alpha_all_zero(tile_of(img, t).pixels),
    ensures
        no_entry_named(
            tiles_entries(flat, texture, m2, img, n, mtime),
            entry_name(flat, faux, texture, mip, Some(t)),
        ),
    decreases n,
{
    if n > 0 {
        let t2 = (n - 1) as nat;
        let name = entry_name(flat, faux, texture, mip, Some(t));
        lemma_tiles_are_not_named(flat, texture, m2, img, t2, mtime, faux, mip, t);
        if !alpha_all_zero(tile_of(img, t2).pixels) {
            lemma_pair_is_not_named(
                flat,
                texture,
                m2,
                Some(t2),
                tile_of(img, t2),
                mtime,
                faux,
                mip,
                Some(t),
            );
        }
        lemma_no_entry_named_concat(
            tiles_entries(flat, texture, m2, img, t2, mtime),
            tile_entries(flat, texture, m2, img, t2, mtime),
            name,
        );
    }
}

/// The same for the first `n` mip levels of a texture.
proof fn lemma_mips_are_not_named(
    flat: Seq<char>,
    tex: TextureView,
    n: nat,
    mtime: u64,
    faux: bool,
    mip: nat,
    t: nat,
)
    requires
        mip_image(tex, mip as int) matches Some(img) ==> alpha_all_zero(tile_of(img, t).pixels),
    ensures
        no_entry_named(
            mips_entries(flat, tex, n, mtime),
            entry_name(flat, faux, tex.name, mip, Some(t)),
        ),
    decreases n,
{
    if n > 0 {
        let m2 = (n - 1) as nat;
        let name = entry_name(flat, faux, tex.name, mip, Some(t));
        lemma_mips_are_not_named(flat, tex, m2, mtime, faux, mip, t);
        match mip_image(tex, m2 as int) {
            None => {},
            Some(img) => {
                let tiles = if tiled(tex.name) {
                    tiles_entries(flat, tex.name, m2, img, TILE_COUNT as nat, mtime)
                } else {
                    Seq::empty()
                };
                if tiled(tex.name) {
                    lemma_tiles_are_not_named(
                        flat,
                        tex.name,
                        m2,
                        img,
                        TILE_COUNT as nat,
                        mtime,
                        faux,
                        mip,
                        t,
                    );
                }
                lemma_pair_is_not_named(flat, tex.name, m2, None, img, mtime, faux, mip, Some(t));
                lemma_no_entry_named_concat(
                    tiles,
                    image_pair(flat, tex.name, m2, None, img, mtime),
                    name,
                );
            },
        }
        lemma_no_entry_named_concat(
            mips_entries(flat, tex, m2, mtime),
            mip_entries(flat, tex, m2, mtime),
            name,
        );
    }
}

/// For a tile whose alpha is zero throughout, no entry exists among those of
/// its texture: none bears the tile's plain name, none its faux-transparency
/// name.
pub proof fn lemma_transparent_tile_has_no_entry(
    flat: Seq<char>,
    tex: TextureView,
    mip: nat,
    t: nat,
    faux: bool,
    mtime: u64,
)
    requires
        mip_image(tex, mip as int) matches Some(img) ==> alpha_all_zero(tile_of(img, t).pixels),
    ensures
        no_entry_named(
            texture_entries(flat, tex, mtime),
            entry_name(flat, faux, tex.name, mip, Some(t)),
        ),
{
    lemma_mips_are_not_named(flat, tex, tex.mips.len(), mtime, faux, mip, t);
}

/// The first `n` tiles of a mip level hold no entry named for a whole image,
/// for another level, or for a tile from `n` on.
proof fn lemma_tiles_hold_no_later_name(
    flat: Seq<char>,
    texture: Seq<char>,
    m2: nat,
    img: ImageView,
    n: nat,
    mtime: u64,
    faux: bool,
    mip: nat,
    tile: Option<nat>,
)
    requires
        tile matches Some(t) ==> mip != m2 || t >= n,
    ensures
        no_entry_named(
            tiles_entries(flat, texture, m2, img, n, mtime),
            entry_name(flat, faux, texture, mip, tile),
        ),
    decreases n,
{
    if n > 0 {
        let t2 = (n - 1) as nat;
        lemma_tiles_hold_no_later_name(flat, texture, m2, img, t2, mtime, faux, mip, tile);
        if !alpha_all_zero(tile_of(img, t2).pixels) {
            lemma_pair_is_not_named(
                flat,
                texture,
                m2,
                Some(t2),
                tile_of(img, t2),
                mtime,
                faux,
                mip,
                tile,
            );
        }
        lemma_no_entry_named_concat(
            tiles_entries(flat, texture, m2, img, t2, mtime),
            tile_entries(flat, texture, m2, img, t2, mtime),
            entry_name(flat, faux, texture, mip, tile),
        );
    }
}

/// The first `n` mip levels hold no entry named for a level from `n` on.
proof fn lemma_mips_hold_no_later_name(
    flat: Seq<char>,
    tex: TextureView,
    n: nat,
    mtime: u64,
    faux: bool,
    mip: nat,
    tile: Option<nat>,
)
    requires
        mip >= n,
    ensures
        no_entry_named(
            mips_entries(flat, tex, n, mtime),
            entry_name(flat, faux, tex.name, mip, tile),
        ),
    decreases n,
{
    if n > 0 {
        let m2 = (n - 1) as nat;
        let name = entry_name(flat, faux, tex.name, mip, tile);
        lemma_mips_hold_no_later_name(flat, tex, m2, mtime, faux, mip, tile);
        match mip_image(tex, m2 as int) {
            None => {},
            Some(img) => {
                let tiles = if tiled(tex.name) {
                    tiles_entries(flat, tex.name, m2, img, TILE_COUNT as nat, mtime)
                } else {
                    Seq::empty()
                };
                if tiled(tex.name) {
                    lemma_tiles_hold_no_later_name(
                        flat,
                        tex.name,
                        m2,
                        img,
                        TILE_COUNT as nat,
                        mtime,
                        faux,
                        mip,
                        tile,
                    );
                }
                lemma_pair_is_not_named(flat, tex.name, m2, None, img, mtime, faux, mip, tile);
                lemma_no_entry_named_concat(
                    tiles,
                    image_pair(flat, tex.name, m2, None, img, mtime),
                    name,
                );
            },
        }
        lemma_no_entry_named_concat(
            mips_entries(flat, tex, m2, mtime),
            mip_entries(flat, tex, m2, mtime),
            name,
        );
    }
}

/// Two entries under new and different names keep the names apart.
proof fn lemma_unique_with_pair(a: Seq<EntryView>, pair: Seq<EntryView>)
    requires
        names_unique(a),
        pair.len() == 2,
        no_entry_named(a, pair[0].name),
        no_entry_named(a, pair[1].name),
        pair[0].name != pair[1].name,
    ensures
        names_unique(a + pair),
{
    let all = a + pair;
    assert forall|i: int, j: int| 0 <= i < j < all.len() implies all[i].name != all[j].name by {
        if j < a.len() {
            assert(all[i] == a[i] && all[j] == a[j]);
        } else if i < a.len() {
            assert(all[i] == a[i]);
            assert(all[j] == pair[j - a.len()]);
        } else {
            assert(all[i] == pair[0] && all[j] == pair[1]);
        }
    }
}

/// The pair of an image, behind entries that hold neither of its names.
proof fn lemma_unique_with_image_pair(
    a: Seq<EntryView>,
    flat: Seq<char>,
    texture: Seq<char>,
    mip: nat,
    tile: Option<nat>,
    img: ImageView,
    mtime: u64,
)
    requires
        names_unique(a),
        no_entry_named(a, entry_name(flat, false, texture, mip, tile)),
        no_entry_named(a, entry_name(flat, true, texture, mip, tile)),
    ensures
        names_unique(a + image_pair(flat, texture, mip, tile, img, mtime)),
{
    let pair = image_pair(flat, texture, mip, tile, img, mtime);
    if pair[0].name == pair[1].name {
        lemma_entry_name_is_injective(flat, texture, false, mip, tile, true, mip, tile);
    }
    lemma_unique_with_pair(a, pair);
}

/// The entries of the mip levels below `mip` and of the first `k` tiles of
/// `mip` bear different names.
proof fn lemma_unique_with_tiles(
    flat: Seq<char>,
    tex: TextureView,
    mip: nat,
    img: ImageView,
    k: nat,
    mtime: u64,
)
    requires
        names_unique(mips_entries(flat, tex, mip, mtime)),
    ensures
        names_unique(
            mips_entries(flat, tex, mip, mtime) + tiles_entries(
                flat,
                tex.name,
                mip,
                img,
                k,
                mtime,
            ),
        ),
    decreases k,
{
    let below = mips_entries(flat, tex, mip, mtime);
    if k == 0 {
        assert(below + tiles_entries(flat, tex.name, mip, img, 0, mtime) =~= below);
    } else {
        let t = (k - 1) as nat;
        let tiles = tiles_entries(flat, tex.name, mip, img, t, mtime);
        lemma_unique_with_tiles(flat, tex, mip, img, t, mtime);
        if alpha_all_zero(tile_of(img, t).pixels) {
            assert(tiles_entries(flat, tex.name, mip, img, k, mtime) =~= tiles);
        } else {
            let pair = image_pair(flat, tex.name, mip, Some(t), tile_of(img, t), mtime);
            lemma_mips_hold_no_later_name(flat, tex, mip, mtime, false, mip, Some(t));
            lemma_mips_hold_no_later_name(flat, tex, mip, mtime, true, mip, Some(t));
            lemma_tiles_hold_no_later_name(flat, tex.name, mip, img, t, mtime, false, mip, Some(t));
            lemma_tiles_hold_no_later_name(flat, tex.name, mip, img, t, mtime, true, mip, Some(t));
            lemma_no_entry_named_concat(
                below,
                tiles,
                entry_name(flat, false, tex.name, mip, Some(t)),
            );
            lemma_no_entry_named_concat(
                below,
                tiles,
                entry_name(flat, true, tex.name, mip, Some(t)),
            );
            lemma_unique_with_image_pair(
                below + tiles,
                flat,
                tex.name,
                mip,
                Some(t),
                tile_of(img, t),
                mtime,
            );
            assert((below + tiles) + pair =~= below + tiles_entries(
                flat,
                tex.name,
                mip,
                img,
                k,
                mtime,
            ));
        }
    }
}

/// The entries of the first `n` mip levels of a texture bear different names.
proof fn lemma_mips_have_unique_names(flat: Seq<char>, tex: TextureView, n: nat, mtime: u64)
    ensures
        names_unique(mips_entries(flat, tex, n, mtime)),
    decreases n,
{
    if n > 0 {
        let mip = (n - 1) as nat;
        let below = mips_entries(flat, tex, mip, mtime);
        lemma_mips_have_unique_names(flat, tex, mip, mtime);
        match mip_image(tex, mip as int) {
            None => {
                assert(mips_entries(flat, tex, n, mtime) =~= below);
            },
            Some(img) => {
                let tiles = if tiled(tex.name) {
                    tiles_entries(flat, tex.name, mip, img, TILE_COUNT as nat, mtime)
                } else {
                    Seq::empty()
                };
                let pair = image_pair(flat, tex.name, mip, None, img, mtime);
                if tiled(tex.name) {
                    lemma_unique_with_tiles(flat, tex, mip, img, TILE_COUNT as nat, mtime);
                    lemma_tiles_hold_no_later_name(
                        flat,
                        tex.name,
                        mip,
                        img,
                        TILE_COUNT as nat,
                        mtime,
                        false,
                        mip,
                        None,
                    );
                    lemma_tiles_hold_no_later_name(
                        flat,
                        tex.name,
                        mip,
                        img,
                        TILE_COUNT as nat,
                        mtime,
                        true,
                        mip,
                        None,
                    );
                } else {
                    assert(below + tiles =~= below);
                }
                lemma_mips_hold_no_later_name(flat, tex, mip, mtime, false, mip, None);
                lemma_mips_hold_no_later_name(flat, tex, mip, mtime, true, mip, None);
                lemma_no_entry_named_concat(
                    below,
                    tiles,
                    entry_name(flat, false, tex.name, mip, None),
                );
                lemma_no_entry_named_concat(
                    below,
                    tiles,
                    entry_name(flat, true, tex.name, mip, None),
                );
                lemma_unique_with_image_pair(below + tiles, flat, tex.name, mip, None, img, mtime);
                assert((below + tiles) + pair =~= mips_entries(flat, tex, n, mtime));
            },
        }
    }
}

/// The entries of one texture bear different names, so each of them is found
/// under its own name, with its own size and bytes.
pub proof fn lemma_texture_entries_are_retrievable(
    flat: Seq<char>,
    tex: TextureView,
    mtime: u64,
    i: int,
)
    requires
        0 <= i < texture_entries(flat, tex, mtime).len(),
    ensures
        names_unique(texture_entries(flat, tex, mtime)),
        lookup(texture_entries(flat, tex, mtime), texture_entries(flat, tex, mtime)[i].name)
            == Some(texture_entries(flat, tex, mtime)[i]),
{
    lemma_mips_have_unique_names(flat, tex, tex.mips.len(), mtime);
    lemma_every_entry_retrievable(texture_entries(flat, tex, mtime), i);
}

} // verus!
