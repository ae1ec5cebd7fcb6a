//! The files that the user has selected, and what a run over them needs.

use crate::error::Error;
use crate::path::{extension, extension_of, OutputPath};
use crate::text::{
    chars_of, copy_texts, ends_with, has_suffix, has_text, same_chars, string_of,
};
use itertools::Itertools;
use vstd::prelude::*;

verus! {

/// The kinds of file that can be selected, told apart by extension.
#[derive(Clone, Copy, Debug, PartialEq, Eq, Structural)]
pub enum SourceKind {
    /// A zip archive of extracted game files.
    Zip,
    /// A 7z archive of extracted game files.
    SevenZip,
    /// A cartridge image.
    Xci,
    /// A package of an installed title.
    Nsp,
    /// Anything else.
    Unsupported,
}

/// What `plan_run` works out before a run.
#[derive(Clone, Copy, Debug, PartialEq, Eq, Structural)]
pub struct RunPlan {
    /// The value of the progress counter at which the run is complete.
    pub max_progress: u32,
    /// Whether a selected file can only be read with the production key.
    pub prod_key_required: bool,
}

/// How the game files of a selected file are laid out for bundling.
#[derive(Clone, Copy, Debug, PartialEq, Eq, Structural)]
pub enum ExtractionStep {
    /// The cartridge image is unpacked with the production key.
    UnpackCartridge,
    /// The zip archive is extracted.
    ExtractZip,
    /// The 7z archive is extracted.
    ExtractSevenZip,
}

/// The names of the game files that an archive holds, as far as a run
/// requires them.
pub struct FileContent {
    pub file: String,
    pub names: Vec<String>,
}

/// The selected files and what is known of them. `file_content` holds one
/// record for each archive that was looked into (`one_record_per_file`).
pub struct Selection {
    pub selected_files: Vec<String>,
    pub file_content: Vec<FileContent>,
    pub required_files: Vec<String>,
    pub has_original_game_files: bool,
}

/// An archive's required game files, as texts.
pub struct ContentView {
    pub file: Seq<char>,
    pub names: Seq<Seq<char>>,
}

/// A selection, as texts.
pub struct SelectionView {
    pub selected_files: Seq<Seq<char>>,
    pub file_content: Seq<ContentView>,
    pub required_files: Seq<Seq<char>>,
    pub has_original_game_files: bool,
}

impl View for FileContent {
    type V = ContentView;

    open spec fn view(&self) -> ContentView {
        ContentView { file: self.file@, names: self.names.deep_view() }
    }
}

impl View for Selection {
    type V = SelectionView;

    open spec fn view(&self) -> SelectionView {
        SelectionView {
            selected_files: self.selected_files.deep_view(),
            file_content: Seq::new(self.file_content@.len(), |i: int| self.file_content@[i]@),
            required_files: self.required_files.deep_view(),
            has_original_game_files: self.has_original_game_files,
        }
    }
}

/// The steps of a run that are counted whatever is selected.
pub const BASE_STEPS: u32 = 3;

/// The extension of a zip archive.
pub open spec fn ext_zip() -> Seq<char> {
    seq!['z', 'i', 'p']
}

/// The extension of a 7z archive.
pub open spec fn ext_7z() -> Seq<char> {
    seq!['7', 'z']
}

/// The extension of a cartridge image.
pub open spec fn ext_xci() -> Seq<char> {
    seq!['x', 'c', 'i']
}

/// The extension of a title package.
pub open spec fn ext_nsp() -> Seq<char> {
    seq!['n', 's', 'p']
}

/// The kind of the file named `name`.
pub open spec fn kind_of(name: Seq<char>) -> SourceKind {
    if extension(name) == Some(ext_zip()) {
        SourceKind::Zip
    } else if extension(name) == Some(ext_7z()) {
        SourceKind::SevenZip
    } else if extension(name) == Some(ext_xci()) {
        SourceKind::Xci
    } else if extension(name) == Some(ext_nsp()) {
        SourceKind::Nsp
    } else {
        SourceKind::Unsupported
    }
}

/// The steps that the file named `name` adds to a run: two for a cartridge
/// image, one for a title package.
pub open spec fn weight_of(name: Seq<char>) -> nat {
    if has_suffix(name, seq!['.'] + ext_xci()) {
        2
    } else if has_suffix(name, seq!['.'] + ext_nsp()) {
        1
    } else {
        0
    }
}

/// The steps that the first `n` of `files` add to a run.
pub open spec fn weight_sum(files: Seq<Seq<char>>, n: nat) -> nat
    decreases n,
{
    if n == 0 {
        0
    } else {
        weight_sum(files, (n - 1) as nat) + weight_of(files[n - 1])
    }
}

/// One of the first `n` of `files` can only be read with the production key.
pub open spec fn needs_prod_key(files: Seq<Seq<char>>, n: nat) -> bool {
    exists|i: int| 0 <= i < n && weight_of(#[trigger] files[i]) > 0
}

/// `list` without repetitions: of equal texts the first stays.
pub open spec fn unique_of(list: Seq<Seq<char>>) -> Seq<Seq<char>>
    decreases list.len(),
{
    if list.len() == 0 {
        Seq::empty()
    } else if unique_of(list.drop_last()).contains(list.last()) {
        unique_of(list.drop_last())
    } else {
        unique_of(list.drop_last()).push(list.last())
    }
}

/// The first `n` of `list` without `text`.
pub open spec fn without_text(list: Seq<Seq<char>>, text: Seq<char>, n: nat) -> Seq<Seq<char>>
    decreases n,
{
    if n == 0 {
        Seq::empty()
    } else if list[n - 1] == text {
        without_text(list, text, (n - 1) as nat)
    } else {
        without_text(list, text, (n - 1) as nat).push(list[n - 1])
    }
}

/// One of the first `n` archives holds the game file `name`.
pub open spec fn held(contents: Seq<ContentView>, name: Seq<char>, n: nat) -> bool {
    exists|i: int| 0 <= i < n && (#[trigger] contents[i]).names.contains(name)
}

/// The first `n` of `contents` without what is known of `file`.
pub open spec fn without_file(contents: Seq<ContentView>, file: Seq<char>, n: nat) -> Seq<
    ContentView,
>
    decreases n,
{
    if n == 0 {
        Seq::empty()
    } else if contents[n - 1].file == file {
        without_file(contents, file, (n - 1) as nat)
    } else {
        without_file(contents, file, (n - 1) as nat).push(contents[n - 1])
    }
}

/// The step that a file of `kind` takes; none for a kind that a run cannot
/// process.
pub open spec fn step_of(kind: SourceKind) -> Option<ExtractionStep> {
    match kind {
        SourceKind::Xci => Some(ExtractionStep::UnpackCartridge),
        SourceKind::Zip => Some(ExtractionStep::ExtractZip),
        SourceKind::SevenZip => Some(ExtractionStep::ExtractSevenZip),
        SourceKind::Nsp => None,
        SourceKind::Unsupported => None,
    }
}

/// No two records are of the same file.
pub open spec fn one_record_per_file(contents: Seq<ContentView>) -> bool {
    forall|i: int, j: int| 0 <= i < j < contents.len() ==> contents[i].file != contents[j].file
}

/// `kind` is a kind of original game file.
pub open spec fn is_original(kind: SourceKind) -> bool {
    kind == SourceKind::Xci || kind == SourceKind::Nsp
}

/// `kind` is a kind of archive of extracted game files.
pub open spec fn is_archive(kind: SourceKind) -> bool {
    kind == SourceKind::Zip || kind == SourceKind::SevenZip
}

/// Those of the first `n` of `required` that no archive holds, each once, in
/// the order of `required`.
pub open spec fn missing_of(required: Seq<Seq<char>>, contents: Seq<ContentView>, n: nat) -> Seq<
    Seq<char>,
>
    decreases n,
{
    if n == 0 {
        Seq::empty()
    } else {
        let before = missing_of(required, contents, (n - 1) as nat);
        if held(contents, required[n - 1], contents.len()) || before.contains(required[n - 1]) {
            before
        } else {
            before.push(required[n - 1])
        }
    }
}

/// Those of the first `n` of `relative` that are a required game file, in
/// order. A `None` stands for a name that is not below the archive's root.
pub open spec fn required_among(
    relative: Seq<Option<Seq<char>>>,
    required: Seq<Seq<char>>,
    n: nat,
) -> Seq<Seq<char>>
    decreases n,
{
    if n == 0 {
        Seq::empty()
    } else {
        let before = required_among(relative, required, (n - 1) as nat);
        match relative[n - 1] {
            Some(name) => if required.contains(name) {
                before.push(name)
            } else {
                before
            },
            None => before,
        }
    }
}

/// The texts of a list of optional strings.
pub open spec fn option_texts(list: Seq<Option<String>>) -> Seq<Option<Seq<char>>> {
    Seq::new(
        list.len(),
        |i: int|
            match list[i] {
                Some(s) => Some(s@),
                None => None,
            },
    )
}

/// The game files that a run requires where no original game file is
/// selected.
pub open spec fn default_required() -> Seq<Seq<char>> {
    seq![
        "romfs/Pack/MW_Model.pack"@,
        "romfs/Model/MW_Field_plain.Nin_NX_NVN.zs"@,
        "romfs/Model/MW_DV_plain_V.Nin_NX_NVN.zs"@,
        "romfs/Model/MW_Field_underground.Nin_NX_NVN.zs"@,
        "romfs/Model/MW_DV_underground_V.Nin_NX_NVN.zs"@,
        "romfs/Model/MW_Field_water.Nin_NX_NVN.zs"@,
        "romfs/Model/MW_DV_water_V.Nin_NX_NVN.zs"@,
        "romfs/Model/MW_Field_hauntedhouse.Nin_NX_NVN.zs"@,
        "romfs/Model/MW_DV_hauntedhouse_V.Nin_NX_NVN.zs"@,
        "romfs/Model/MW_Field_castle.Nin_NX_NVN.zs"@,
        "romfs/Model/MW_DV_castle_V.Nin_NX_NVN.zs"@,
        "romfs/Model/MW_Field_woods.Nin_NX_NVN.zs"@,
        "romfs/Model/MW_DV_woods_V.Nin_NX_NVN.zs"@,
        "romfs/Model/MW_Field_desert.Nin_NX_NVN.zs"@,
        "romfs/Model/MW_DV_desert_V.Nin_NX_NVN.zs"@,
        "romfs/Model/MW_Field_snow.Nin_NX_NVN.zs"@,
        "romfs/Model/MW_DV_snow_V.Nin_NX_NVN.zs"@,
        "romfs/Model/MW_Field_airship.Nin_NX_NVN.zs"@,
        "romfs/Model/MW_DV_airship_V.Nin_NX_NVN.zs"@,
    ]
}

/// `Itertools::unique` over the texts of `files`: the texts that have not
/// come before, in the order in which they come.
#[verifier::external_body]
fn unique(files: &Vec<String>) -> (out: Vec<String>)
    ensures
        out.deep_view() == unique_of(files.deep_view()),
{
    files.iter().cloned().unique().collect()
}

/// `pathdiff::diff_paths`, from `base` to `path`, as text. It reads both by
/// the platform's path syntax, so nothing is claimed of the result.
#[verifier::external_body]
fn diff_paths(path: &String, base: &String) -> (relative: Option<String>) {
    pathdiff::diff_paths(path, base).map(|p| p.to_string_lossy().to_string())
}

/// The kind of the file named `file_name`.
pub fn source_kind(file_name: &String) -> (kind: SourceKind)
    ensures
        kind == kind_of(file_name@),
{
    let zip: Vec<char> = vec!['z', 'i', 'p'];
    let seven: Vec<char> = vec!['7', 'z'];
    let xci: Vec<char> = vec!['x', 'c', 'i'];
    let nsp: Vec<char> = vec!['n', 's', 'p'];
    assert(zip@ =~= ext_zip());
    assert(seven@ =~= ext_7z());
    assert(xci@ =~= ext_xci());
    assert(nsp@ =~= ext_nsp());
    match extension_of(&chars_of(file_name.as_str())) {
        None => SourceKind::Unsupported,
        Some(ext) => {
            if same_chars(&ext, &zip) {
                SourceKind::Zip
            } else if same_chars(&ext, &seven) {
                SourceKind::SevenZip
            } else if same_chars(&ext, &xci) {
                SourceKind::Xci
            } else if same_chars(&ext, &nsp) {
                SourceKind::Nsp
            } else {
                SourceKind::Unsupported
            }
        },
    }
}

/// The steps that the file named `name` adds to a run.
fn weight(name: &String) -> (w: u32)
    ensures
        w == weight_of(name@),
{
    let xci: Vec<char> = vec!['.', 'x', 'c', 'i'];
    let nsp: Vec<char> = vec!['.', 'n', 's', 'p'];
    assert(xci@ =~= seq!['.'] + ext_xci());
    assert(nsp@ =~= seq!['.'] + ext_nsp());
    let chars = chars_of(name.as_str());
    if ends_with(&chars, &xci) {
        2
    } else if ends_with(&chars, &nsp) {
        1
    } else {
        0
    }
}

/// What a run over `files` needs: the number of its steps, which is three and
/// the weight of each file, and whether the production key is needed. `None`
/// where that number does not fit 32 bits.
pub fn plan_run(files: &Vec<String>) -> (plan: Option<RunPlan>)
    ensures
        plan is Some <==> BASE_STEPS + weight_sum(files.deep_view(), files.len() as nat)
            <= u32::MAX,
        plan matches Some(p) ==> {
            &&& p.max_progress == BASE_STEPS + weight_sum(files.deep_view(), files.len() as nat)
            &&& p.prod_key_required == needs_prod_key(files.deep_view(), files.len() as nat)
        },
{
    let mut max_progress: u64 = BASE_STEPS as u64;
    let mut prod_key_required = false;
    let mut i: usize = 0;
    while i < files.len()
        invariant
            i <= files.len(),
            max_progress == BASE_STEPS + weight_sum(files.deep_view(), i as nat),
            max_progress <= BASE_STEPS + 2 * i,
            prod_key_required == needs_prod_key(files.deep_view(), i as nat),
        decreases files.len() - i,
    {
        let w = weight(&files[i]);
        if w > 0 {
            prod_key_required = true;
        }
        if max_progress > u32::MAX as u64 {
            proof {
                lemma_weight_sum_grows(files.deep_view(), i as nat, files.len() as nat);
            }
            return None;
        }
        max_progress = max_progress + w as u64;
        i += 1;
    }
    if max_progress > u32::MAX as u64 {
        None
    } else {
        Some(RunPlan { max_progress: max_progress as u32, prod_key_required })
    }
}

/// More files never add fewer steps.
pub proof fn lemma_weight_sum_grows(files: Seq<Seq<char>>, n: nat, m: nat)
    requires
        n <= m,
    ensures
        weight_sum(files, n) <= weight_sum(files, m),
    decreases m,
{
    if n < m {
        lemma_weight_sum_grows(files, n, (m - 1) as nat);
    }
}

/// The step that a file of `kind` takes in a run. A title package and a file
/// of no known kind cannot be processed.
pub fn extraction_step(kind: SourceKind) -> (r: Result<ExtractionStep, Error>)
    ensures
        match r {
            Ok(step) => step_of(kind) == Some(step),
            Err(e) => step_of(kind) is None && e is FileExtensionUnsupported,
        },
{
    match kind {
        SourceKind::Xci => Ok(ExtractionStep::UnpackCartridge),
        SourceKind::Zip => Ok(ExtractionStep::ExtractZip),
        SourceKind::SevenZip => Ok(ExtractionStep::ExtractSevenZip),
        SourceKind::Nsp => Err(Error::FileExtensionUnsupported),
        SourceKind::Unsupported => Err(Error::FileExtensionUnsupported),
    }
}

/// Dropping what is known of a file keeps one record per file, and leaves no
/// record of that file.
pub proof fn lemma_without_file_keeps_one_record(
    contents: Seq<ContentView>,
    file: Seq<char>,
    n: nat,
)
    requires
        n <= contents.len(),
        one_record_per_file(contents),
    ensures
        one_record_per_file(without_file(contents, file, n)),
        forall|k: int|
            0 <= k < without_file(contents, file, n).len() ==> (#[trigger] without_file(
                contents,
                file,
                n,
            )[k]).file != file,
        forall|k: int|
            0 <= k < without_file(contents, file, n).len() ==> exists|j: int|
                0 <= j < n && contents[j] == #[trigger] without_file(contents, file, n)[k],
    decreases n,
{
    let out = without_file(contents, file, n);
    if n > 0 {
        let before = without_file(contents, file, (n - 1) as nat);
        lemma_without_file_keeps_one_record(contents, file, (n - 1) as nat);
        if contents[n - 1].file != file {
            assert forall|k: int| 0 <= k < out.len() implies exists|j: int|
                0 <= j < n && contents[j] == #[trigger] out[k] by {
                if k < before.len() {
                    let j = choose|j: int| 0 <= j < n - 1 && contents[j] == before[k];
                    assert(contents[j] == out[k]);
                } else {
                    assert(contents[n - 1] == out[k]);
                }
            }
            assert forall|i: int, j: int| 0 <= i < j < out.len() implies out[i].file
                != out[j].file by {
                if j == before.len() {
                    let m = choose|m: int| 0 <= m < n - 1 && contents[m] == before[i];
                    assert(contents[m].file != contents[n - 1].file);
                }
            }
        }
    }
}

/// Refuses a run that needs the production key where none is set.
pub fn check_prod_key(plan: &RunPlan, prod_key: &Option<String>) -> (r: Result<(), Error>)
    ensures
        r is Err <==> plan.prod_key_required && prod_key is None,
        r matches Err(e) ==> e is ProdKeyNotSet,
{
    if plan.prod_key_required && prod_key.is_none() {
        Err(Error::ProdKeyNotSet)
    } else {
        Ok(())
    }
}

/// Takes repetitions out of `files`: of equal names the first stays.
pub fn dedup_files(files: &mut Vec<String>)
    ensures
        final(files).deep_view() == unique_of(old(files).deep_view()),
{
    let unique = unique(files);
    *files = unique;
}

/// What `dedup_files` leaves holds every name that was there, and none twice.
pub proof fn lemma_unique_of_keeps_each_once(list: Seq<Seq<char>>)
    ensures
        forall|i: int, j: int|
            0 <= i < j < unique_of(list).len() ==> unique_of(list)[i] != unique_of(list)[j],
        forall|t: Seq<char>| unique_of(list).contains(t) <==> list.contains(t),
    decreases list.len(),
{
    let out = unique_of(list);
    if list.len() > 0 {
        let rest = list.drop_last();
        let before = unique_of(rest);
        lemma_unique_of_keeps_each_once(rest);
        assert forall|t: Seq<char>| out.contains(t) <==> list.contains(t) by {
            if list.contains(t) {
                let k = choose|k: int| 0 <= k < list.len() && list[k] == t;
                if k < list.len() - 1 {
                    assert(rest[k] == t);
                    assert(rest.contains(t));
                    assert(unique_of(rest).contains(t));
                    let m = choose|m: int| 0 <= m < before.len() && before[m] == t;
                    assert(out[m] == t);
                } else if before.contains(t) {
                    let m = choose|m: int| 0 <= m < before.len() && before[m] == t;
                    assert(out[m] == t);
                } else {
                    assert(out[before.len() as int] == t);
                }
            }
            if out.contains(t) {
                let m = choose|m: int| 0 <= m < out.len() && out[m] == t;
                if m < before.len() {
                    assert(before[m] == t);
                    assert(unique_of(rest).contains(t));
                    assert(rest.contains(t));
                    let k = choose|k: int| 0 <= k < rest.len() && rest[k] == t;
                    assert(list[k] == t);
                } else {
                    assert(list[list.len() - 1] == t);
                }
            }
        }
        assert forall|i: int, j: int| 0 <= i < j < out.len() implies out[i] != out[j] by {
            if j == before.len() {
                assert(before[i] == out[i]);
                assert(before.contains(before[i]));
            }
        }
    }
}

/// Those of `relative` that are a required game file, in order.
pub fn select_required(relative: &Vec<Option<String>>, required: &Vec<String>) -> (names: Vec<
    String,
>)
    ensures
        names.deep_view() == required_among(
            option_texts(relative@),
            required.deep_view(),
            relative.len() as nat,
        ),
{
    let mut names: Vec<String> = Vec::new();
    let mut i: usize = 0;
    assert(names.deep_view() =~= Seq::<Seq<char>>::empty());
    while i < relative.len()
        invariant
            i <= relative.len(),
            names.deep_view() == required_among(
                option_texts(relative@),
                required.deep_view(),
                i as nat,
            ),
        decreases relative.len() - i,
    {
        let ghost before = names.deep_view();
        if let Some(name) = &relative[i] {
            if has_text(required, name) {
                names.push(name.clone());
                assert(names.deep_view() =~= before.push(name@));
            }
        }
        i += 1;
    }
    names
}

/// The required game files among the members of an archive whose game files
/// lie in the directory `romfs_dir`: each member's name is taken relative to
/// the directory above `romfs_dir`, and kept where it is required.
pub fn archive_content(names: &Vec<String>, romfs_dir: &String, required: &Vec<String>) -> (content:
    Vec<String>)
    ensures
        exists|relative: Seq<Option<Seq<char>>>|
            relative.len() == names.len() && content.deep_view() == #[trigger] required_among(
                relative,
                required.deep_view(),
                names.len() as nat,
            ),
{
    let base = string_of(OutputPath::from_str(romfs_dir.as_str()).parent().chars());
    let mut relative: Vec<Option<String>> = Vec::new();
    let mut i: usize = 0;
    while i < names.len()
        invariant
            i <= names.len(),
            relative.len() == i,
        decreases names.len() - i,
    {
        relative.push(diff_paths(&names[i], &base));
        i += 1;
    }
    select_required(&relative, required)
}

/// The game files that a run requires where no original game file is
/// selected.
pub fn required_files() -> (files: Vec<String>)
    ensures
        files.deep_view() == default_required(),
{
    let mut files: Vec<String> = Vec::new();
    files.push(String::from_str("romfs/Pack/MW_Model.pack"));
    files.push(String::from_str("romfs/Model/MW_Field_plain.Nin_NX_NVN.zs"));
    files.push(String::from_str("romfs/Model/MW_DV_plain_V.Nin_NX_NVN.zs"));
    files.push(String::from_str("romfs/Model/MW_Field_underground.Nin_NX_NVN.zs"));
    files.push(String::from_str("romfs/Model/MW_DV_underground_V.Nin_NX_NVN.zs"));
    files.push(String::from_str("romfs/Model/MW_Field_water.Nin_NX_NVN.zs"));
    files.push(String::from_str("romfs/Model/MW_DV_water_V.Nin_NX_NVN.zs"));
    files.push(String::from_str("romfs/Model/MW_Field_hauntedhouse.Nin_NX_NVN.zs"));
    files.push(String::from_str("romfs/Model/MW_DV_hauntedhouse_V.Nin_NX_NVN.zs"));
    files.push(String::from_str("romfs/Model/MW_Field_castle.Nin_NX_NVN.zs"));
    files.push(String::from_str("romfs/Model/MW_DV_castle_V.Nin_NX_NVN.zs"));
    files.push(String::from_str("romfs/Model/MW_Field_woods.Nin_NX_NVN.zs"));
    files.push(String::from_str("romfs/Model/MW_DV_woods_V.Nin_NX_NVN.zs"));
    files.push(String::from_str("romfs/Model/MW_Field_desert.Nin_NX_NVN.zs"));
    files.push(String::from_str("romfs/Model/MW_DV_desert_V.Nin_NX_NVN.zs"));
    files.push(String::from_str("romfs/Model/MW_Field_snow.Nin_NX_NVN.zs"));
    files.push(String::from_str("romfs/Model/MW_DV_snow_V.Nin_NX_NVN.zs"));
    files.push(String::from_str("romfs/Model/MW_Field_airship.Nin_NX_NVN.zs"));
    files.push(String::from_str("romfs/Model/MW_DV_airship_V.Nin_NX_NVN.zs"));
    assert(files.deep_view() =~= default_required());
    files
}

/// Whether one of `contents` holds the game file `name`.
fn is_held(contents: &Vec<FileContent>, name: &String) -> (found: bool)
    ensures
        found == held(
            Seq::new(contents@.len(), |i: int| contents@[i]@),
            name@,
            contents.len() as nat,
        ),
{
    let ghost views = Seq::new(contents@.len(), |i: int| contents@[i]@);
    let mut i: usize = 0;
    while i < contents.len()
        invariant
            i <= contents.len(),
            views == Seq::new(contents@.len(), |i: int| contents@[i]@),
            !held(views, name@, i as nat),
        decreases contents.len() - i,
    {
        if has_text(&contents[i].names, name) {
            assert(views[i as int].names.contains(name@));
            return true;
        }
        i += 1;
    }
    false
}

impl Selection {
    /// Nothing is selected yet.
    pub fn new() -> (s: Selection)
        ensures
            s@ == (SelectionView {
                selected_files: Seq::empty(),
                file_content: Seq::empty(),
                required_files: default_required(),
                has_original_game_files: false,
            }),
    {
        let s = Selection {
            selected_files: Vec::new(),
            file_content: Vec::new(),
            required_files: required_files(),
            has_original_game_files: false,
        };
        assert(s@.selected_files =~= Seq::<Seq<char>>::empty());
        assert(s@.file_content =~= Seq::<ContentView>::empty());
        s
    }

    /// Takes `file` into the selection, unless it is selected already.
    pub fn add_file(&mut self, file: String)
        ensures
            final(self)@ == (SelectionView {
                selected_files: unique_of(old(self)@.selected_files.push(file@)),
                ..old(self)@
            }),
    {
        let ghost before = self.selected_files.deep_view();
        self.selected_files.push(file);
        assert(self.selected_files.deep_view() =~= before.push(file@));
        dedup_files(&mut self.selected_files);
    }

    /// Drops what is known of the archive `file`.
    fn forget_content(&mut self, file: &String)
        ensures
            final(self)@ == (SelectionView {
                file_content: without_file(
                    old(self)@.file_content,
                    file@,
                    old(self)@.file_content.len(),
                ),
                ..old(self)@
            }),
    {
        let mut kept: Vec<FileContent> = Vec::new();
        let ghost views = self@.file_content;
        let mut i: usize = 0;
        while i < self.file_content.len()
            invariant
                i <= self.file_content.len(),
                self == old(self),
                views == self@.file_content,
                Seq::new(kept@.len(), |k: int| kept@[k]@) == without_file(views, file@, i as nat),
            decreases self.file_content.len() - i,
        {
            let ghost before = Seq::new(kept@.len(), |k: int| kept@[k]@);
            if self.file_content[i].file != *file {
                let content = FileContent {
                    file: self.file_content[i].file.clone(),
                    names: copy_texts(&self.file_content[i].names),
                };
                assert(content@ == views[i as int]);
                kept.push(content);
                assert(Seq::new(kept@.len(), |k: int| kept@[k]@) =~= before.push(views[i as int]));
            }
            i += 1;
        }
        self.file_content = kept;
        assert(self@.file_content =~= without_file(views, file@, views.len()));
    }

    /// Takes note of what a newly selected file is. For an archive, `members`
    /// are the names of its members and `romfs_dir` is the directory in it
    /// that holds the game files: the required game files among the members
    /// become what is known of it. An original game file is remembered as
    /// such. A file of another kind changes nothing.
    pub fn check_added_file(&mut self, file: &String, members: &Vec<String>, romfs_dir: &String) -> (r:
        Result<(), Error>)
        ensures
            r is Ok,
            final(self)@.selected_files == old(self)@.selected_files,
            final(self)@.required_files == old(self)@.required_files,
            final(self)@.has_original_game_files == (old(self)@.has_original_game_files
                || is_original(kind_of(file@))),
            one_record_per_file(old(self)@.file_content) ==> one_record_per_file(
                final(self)@.file_content,
            ),
            !is_archive(kind_of(file@)) ==> final(self)@.file_content == old(self)@.file_content,
            is_archive(kind_of(file@)) ==> exists|relative: Seq<Option<Seq<char>>>|
                relative.len() == members.len() && final(self)@.file_content == without_file(
                    old(self)@.file_content,
                    file@,
                    old(self)@.file_content.len(),
                ).push(
                    ContentView {
                        file: file@,
                        names: #[trigger] required_among(
                            relative,
                            old(self)@.required_files,
                            members.len() as nat,
                        ),
                    },
                ),
    {
        match source_kind(file) {
            SourceKind::Zip | SourceKind::SevenZip => {
                let names = archive_content(members, romfs_dir, &self.required_files);
                self.forget_content(file);
                let ghost before = self@.file_content;
                let content = FileContent { file: file.clone(), names };
                self.file_content.push(content);
                assert(self@.file_content =~= before.push(content@));
                proof {
                    if one_record_per_file(old(self)@.file_content) {
                        lemma_without_file_keeps_one_record(
                            old(self)@.file_content,
                            file@,
                            old(self)@.file_content.len(),
                        );
                    }
                }
            },
            SourceKind::Xci | SourceKind::Nsp => {
                self.has_original_game_files = true;
            },
            SourceKind::Unsupported => {},
        }
        Ok(())
    }

    /// Takes `file_name` out of the selection, with what is known of it, and
    /// hands back the files that stay selected. Original game files count as
    /// selected afterwards exactly where something was selected and
    /// `file_name` is of such a kind.
    pub fn remove_file(&mut self, file_name: &String) -> (selected: Vec<String>)
        ensures
            final(self)@ == (SelectionView {
                selected_files: without_text(
                    old(self)@.selected_files,
                    file_name@,
                    old(self)@.selected_files.len(),
                ),
                file_content: without_file(
                    old(self)@.file_content,
                    file_name@,
                    old(self)@.file_content.len(),
                ),
                has_original_game_files: old(self)@.selected_files.len() > 0 && is_original(
                    kind_of(file_name@),
                ),
                ..old(self)@
            }),
            selected.deep_view() == final(self)@.selected_files,
            one_record_per_file(old(self)@.file_content) ==> one_record_per_file(
                final(self)@.file_content,
            ),
    {
        proof {
            if one_record_per_file(self@.file_content) {
                lemma_without_file_keeps_one_record(
                    self@.file_content,
                    file_name@,
                    self@.file_content.len(),
                );
            }
        }
        let kind = source_kind(file_name);
        let original = kind == SourceKind::Xci || kind == SourceKind::Nsp;
        let has_original_game_files = self.selected_files.len() > 0 && original;
        let mut kept: Vec<String> = Vec::new();
        let ghost texts = self.selected_files.deep_view();
        let mut i: usize = 0;
        assert(kept.deep_view() =~= without_text(texts, file_name@, 0));
        while i < self.selected_files.len()
            invariant
                i <= self.selected_files.len(),
                self == old(self),
                texts == self.selected_files.deep_view(),
                kept.deep_view() == without_text(texts, file_name@, i as nat),
            decreases self.selected_files.len() - i,
        {
            let ghost before = kept.deep_view();
            if self.selected_files[i] != *file_name {
                kept.push(self.selected_files[i].clone());
                assert(kept.deep_view() =~= before.push(texts[i as int]));
            }
            i += 1;
        }
        let selected = copy_texts(&kept);
        self.selected_files = kept;
        self.has_original_game_files = has_original_game_files;
        self.forget_content(file_name);
        selected
    }

    /// Whether the selection suffices for a run: it does where an original
    /// game file is selected, or every required game file is held by one of
    /// the archives. Otherwise the error names the required game files that
    /// no archive holds.
    pub fn assert_added_files(&self) -> (r: Result<(), Error>)
        ensures
            r is Ok <==> self@.has_original_game_files || missing_of(
                self@.required_files,
                self@.file_content,
                self@.required_files.len(),
            ).len() == 0,
            r matches Err(e) ==> e matches Error::RequiredFilesMissing(names)
                && names.deep_view() == missing_of(
                self@.required_files,
                self@.file_content,
                self@.required_files.len(),
            ),
    {
        if self.has_original_game_files {
            return Ok(());
        }
        let mut err_res: Vec<String> = Vec::new();
        let mut i: usize = 0;
        assert(err_res.deep_view() =~= Seq::<Seq<char>>::empty());
        while i < self.required_files.len()
            invariant
                i <= self.required_files.len(),
                err_res.deep_view() == missing_of(
                    self@.required_files,
                    self@.file_content,
                    i as nat,
                ),
            decreases self.required_files.len() - i,
        {
            let ghost before = err_res.deep_view();
            let name = &self.required_files[i];
            if !is_held(&self.file_content, name) && !has_text(&err_res, name) {
                err_res.push(name.clone());
                assert(err_res.deep_view() =~= before.push(name@));
            }
            i += 1;
        }
        if err_res.len() == 0 {
            Ok(())
        } else {
            Err(Error::RequiredFilesMissing(err_res))
        }
    }
}

} // verus!
