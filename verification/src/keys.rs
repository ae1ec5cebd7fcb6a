//! Where a production key file may lie below the data directories of the
//! known emulators, and which of those places hold one.
//!
//! The library does not look at the disk. It names the paths to look at
//! (`key_probes`), and is told which of them exist.

use crate::error::Error;
use crate::path::joined;
use crate::text::{append_chars, chars_of, has_text, string_of};
use vstd::prelude::*;

verus! {

/// The name of a production key file.
pub open spec fn prod_keys() -> Seq<char> {
    seq!['p', 'r', 'o', 'd', '.', 'k', 'e', 'y', 's']
}

/// The directory of the emulator `guess` below `dir`.
pub open spec fn app_dir_of(dir: Seq<char>, guess: Seq<char>) -> Seq<char> {
    joined(dir, guess)
}

/// The directory in which the emulator `guess` keeps its keys.
pub open spec fn key_dir_of(dir: Seq<char>, guess: Seq<char>, key_path: Seq<char>) -> Seq<char> {
    joined(app_dir_of(dir, guess), key_path)
}

/// The key file of the emulator `guess`.
pub open spec fn key_file_of(dir: Seq<char>, guess: Seq<char>, key_path: Seq<char>) -> Seq<char> {
    joined(key_dir_of(dir, guess, key_path), prod_keys())
}

/// The emulator's directory, its key directory and its key file all exist.
pub open spec fn key_present(
    existing: Seq<Seq<char>>,
    dir: Seq<char>,
    guess: Seq<char>,
    key_path: Seq<char>,
) -> bool {
    &&& existing.contains(app_dir_of(dir, guess))
    &&& existing.contains(key_dir_of(dir, guess, key_path))
    &&& existing.contains(key_file_of(dir, guess, key_path))
}

/// `found` with `key` in it: added at the end, unless it is there already.
pub open spec fn with_key(found: Seq<Seq<char>>, key: Seq<char>) -> Seq<Seq<char>> {
    if found.contains(key) {
        found
    } else {
        found.push(key)
    }
}

/// `found` after the first `n` of `guesses` were tried below `dir`.
pub open spec fn keys_found(
    found: Seq<Seq<char>>,
    dir: Seq<char>,
    guesses: Seq<Seq<char>>,
    key_path: Seq<char>,
    existing: Seq<Seq<char>>,
    n: nat,
) -> Seq<Seq<char>>
    decreases n,
{
    if n == 0 {
        found
    } else {
        let before = keys_found(found, dir, guesses, key_path, existing, (n - 1) as nat);
        if key_present(existing, dir, guesses[n - 1], key_path) {
            with_key(before, key_file_of(dir, guesses[n - 1], key_path))
        } else {
            before
        }
    }
}

/// The paths to look at for the first `n` of `guesses`: for each guess the
/// emulator's directory, its key directory and its key file.
pub open spec fn probes_of(
    dir: Seq<char>,
    guesses: Seq<Seq<char>>,
    key_path: Seq<char>,
    n: nat,
) -> Seq<Seq<char>>
    decreases n,
{
    if n == 0 {
        Seq::empty()
    } else {
        probes_of(dir, guesses, key_path, (n - 1) as nat) + seq![
            app_dir_of(dir, guesses[n - 1]),
            key_dir_of(dir, guesses[n - 1], key_path),
            key_file_of(dir, guesses[n - 1], key_path),
        ]
    }
}

/// No text occurs twice.
pub open spec fn no_duplicates(list: Seq<Seq<char>>) -> bool {
    forall|i: int, j: int| 0 <= i < j < list.len() ==> list[i] != list[j]
}

/// `name` below `base`.
fn join_text(base: &String, name: &String) -> (out: String)
    ensures
        out@ == joined(base@, name@),
{
    let mut text: Vec<char> = Vec::new();
    let base_chars = chars_of(base.as_str());
    if base_chars.len() > 0 {
        append_chars(&mut text, &base_chars);
        text.push('/');
    }
    append_chars(&mut text, &chars_of(name.as_str()));
    assert(text@ =~= joined(base@, name@));
    string_of(&text)
}

/// The name of a production key file.
fn prod_keys_name() -> (name: String)
    ensures
        name@ == prod_keys(),
{
    let chars: Vec<char> = vec!['p', 'r', 'o', 'd', '.', 'k', 'e', 'y', 's'];
    assert(chars@ =~= prod_keys());
    string_of(&chars)
}

/// The paths whose existence `find_key` asks for, given the same `dir`,
/// `guesses` and `key_path`.
pub fn key_probes(dir: &String, guesses: &Vec<String>, key_path: &String) -> (probes: Vec<String>)
    ensures
        probes.deep_view() == probes_of(
            dir@,
            guesses.deep_view(),
            key_path@,
            guesses.len() as nat,
        ),
{
    let mut probes: Vec<String> = Vec::new();
    let name = prod_keys_name();
    let mut i: usize = 0;
    assert(probes.deep_view() =~= probes_of(dir@, guesses.deep_view(), key_path@, 0));
    while i < guesses.len()
        invariant
            i <= guesses.len(),
            name@ == prod_keys(),
            probes.deep_view() == probes_of(dir@, guesses.deep_view(), key_path@, i as nat),
        decreases guesses.len() - i,
    {
        let ghost before = probes.deep_view();
        let app_dir = join_text(dir, &guesses[i]);
        let key_dir = join_text(&app_dir, key_path);
        let key_file = join_text(&key_dir, &name);
        probes.push(app_dir);
        probes.push(key_dir);
        probes.push(key_file);
        assert(probes.deep_view() =~= before + seq![
            app_dir_of(dir@, guesses.deep_view()[i as int]),
            key_dir_of(dir@, guesses.deep_view()[i as int], key_path@),
            key_file_of(dir@, guesses.deep_view()[i as int], key_path@),
        ]);
        i += 1;
    }
    probes
}

/// Adds to `found_keys` the key file of each of `guesses` below `dir` whose
/// directory, key directory and key file are all among `existing`. A key
/// that is in `found_keys` already is not added again.
pub fn find_key(
    found_keys: &mut Vec<String>,
    dir: &String,
    guesses: &Vec<String>,
    key_path: &String,
    existing: &Vec<String>,
) -> (r: Result<(), Error>)
    ensures
        r is Ok,
        final(found_keys).deep_view() == keys_found(
            old(found_keys).deep_view(),
            dir@,
            guesses.deep_view(),
            key_path@,
            existing.deep_view(),
            guesses.len() as nat,
        ),
{
    let name = prod_keys_name();
    let mut i: usize = 0;
    while i < guesses.len()
        invariant
            i <= guesses.len(),
            name@ == prod_keys(),
            found_keys.deep_view() == keys_found(
                old(found_keys).deep_view(),
                dir@,
                guesses.deep_view(),
                key_path@,
                existing.deep_view(),
                i as nat,
            ),
        decreases guesses.len() - i,
    {
        let ghost before = found_keys.deep_view();
        let current_dir = join_text(dir, &guesses[i]);
        if has_text(existing, &current_dir) {
            let key_dir = join_text(&current_dir, key_path);
            if has_text(existing, &key_dir) {
                let key = join_text(&key_dir, &name);
                if has_text(existing, &key) && !has_text(found_keys, &key) {
                    found_keys.push(key);
                    assert(found_keys.deep_view() =~= before.push(
                        key_file_of(dir@, guesses.deep_view()[i as int], key_path@),
                    ));
                }
            }
        }
        i += 1;
    }
    Ok(())
}

/// Trying guesses never loses a key, and never brings a key in twice.
pub proof fn lemma_keys_found_grows(
    found: Seq<Seq<char>>,
    dir: Seq<char>,
    guesses: Seq<Seq<char>>,
    key_path: Seq<char>,
    existing: Seq<Seq<char>>,
    n: nat,
)
    requires
        no_duplicates(found),
    ensures
        no_duplicates(keys_found(found, dir, guesses, key_path, existing, n)),
        found.len() <= keys_found(found, dir, guesses, key_path, existing, n).len(),
        keys_found(found, dir, guesses, key_path, existing, n).take(found.len() as int) == found,
    decreases n,
{
    let after = keys_found(found, dir, guesses, key_path, existing, n);
    if n == 0 {
        assert(after.take(found.len() as int) =~= found);
    } else {
        lemma_keys_found_grows(found, dir, guesses, key_path, existing, (n - 1) as nat);
        let before = keys_found(found, dir, guesses, key_path, existing, (n - 1) as nat);
        assert(after.take(found.len() as int) =~= before.take(found.len() as int));
    }
}

/// The directory names under which the first emulator keeps its data.
pub open spec fn yuzu_guesses() -> Seq<Seq<char>> {
    seq![seq!['y', 'u', 'z', 'u'], seq!['y', 'u', 'z', 'u', '-', 'e', 'm', 'u']]
}

/// Where the first emulator keeps its keys, below its data.
pub open spec fn yuzu_key_path() -> Seq<char> {
    seq!['k', 'e', 'y', 's']
}

/// The directory names under which the second emulator keeps its data.
pub open spec fn ryujinx_guesses() -> Seq<Seq<char>> {
    seq![seq!['R', 'y', 'u', 'j', 'i', 'n', 'x']]
}

/// Where the second emulator keeps its keys, below its data.
pub open spec fn ryujinx_key_path() -> Seq<char> {
    seq!['s', 'y', 's', 't', 'e', 'm']
}

/// `found` after both emulators were tried below `dir`; unchanged where there
/// is no such directory.
pub open spec fn keys_below(
    found: Seq<Seq<char>>,
    dir: Option<String>,
    existing: Seq<Seq<char>>,
) -> Seq<Seq<char>> {
    match dir {
        None => found,
        Some(dir) => keys_found(
            keys_found(found, dir@, yuzu_guesses(), yuzu_key_path(), existing, 2),
            dir@,
            ryujinx_guesses(),
            ryujinx_key_path(),
            existing,
            1,
        ),
    }
}

/// The paths to look at below `dir` for both emulators.
pub open spec fn probes_below(dir: Option<String>) -> Seq<Seq<char>> {
    match dir {
        None => Seq::empty(),
        Some(dir) => probes_of(dir@, yuzu_guesses(), yuzu_key_path(), 2) + probes_of(
            dir@,
            ryujinx_guesses(),
            ryujinx_key_path(),
            1,
        ),
    }
}

/// The directory names and key path of the first emulator.
fn yuzu() -> (names: (Vec<String>, String))
    ensures
        names.0.deep_view() == yuzu_guesses(),
        names.0.len() == 2,
        names.1@ == yuzu_key_path(),
{
    let a: Vec<char> = vec!['y', 'u', 'z', 'u'];
    let b: Vec<char> = vec!['y', 'u', 'z', 'u', '-', 'e', 'm', 'u'];
    let k: Vec<char> = vec!['k', 'e', 'y', 's'];
    let mut guesses: Vec<String> = Vec::new();
    guesses.push(string_of(&a));
    guesses.push(string_of(&b));
    let key_path = string_of(&k);
    assert(guesses.deep_view() =~= yuzu_guesses());
    assert(key_path@ =~= yuzu_key_path());
    (guesses, key_path)
}

/// The directory names and key path of the second emulator.
fn ryujinx() -> (names: (Vec<String>, String))
    ensures
        names.0.deep_view() == ryujinx_guesses(),
        names.0.len() == 1,
        names.1@ == ryujinx_key_path(),
{
    let a: Vec<char> = vec!['R', 'y', 'u', 'j', 'i', 'n', 'x'];
    let k: Vec<char> = vec!['s', 'y', 's', 't', 'e', 'm'];
    let mut guesses: Vec<String> = Vec::new();
    guesses.push(string_of(&a));
    let key_path = string_of(&k);
    assert(guesses.deep_view() =~= ryujinx_guesses());
    assert(key_path@ =~= ryujinx_key_path());
    (guesses, key_path)
}

/// Tries both emulators below `dir`.
fn find_keys_below(found_keys: &mut Vec<String>, dir: &Option<String>, existing: &Vec<String>)
    ensures
        final(found_keys).deep_view() == keys_below(
            old(found_keys).deep_view(),
            *dir,
            existing.deep_view(),
        ),
{
    if let Some(dir) = dir {
        let (yuzu_guesses, yuzu_keys) = yuzu();
        let (ryujinx_guesses, ryujinx_keys) = ryujinx();
        let _ = find_key(found_keys, dir, &yuzu_guesses, &yuzu_keys, existing);
        let _ = find_key(found_keys, dir, &ryujinx_guesses, &ryujinx_keys, existing);
    }
}

/// The paths to look at below `dir`, appended to `probes`.
fn add_probes_below(probes: &mut Vec<String>, dir: &Option<String>)
    ensures
        final(probes).deep_view() == old(probes).deep_view() + probes_below(*dir),
{
    let ghost before = probes.deep_view();
    if let Some(dir) = dir {
        let (yuzu_guesses, yuzu_keys) = yuzu();
        let (ryujinx_guesses, ryujinx_keys) = ryujinx();
        let mut first = key_probes(dir, &yuzu_guesses, &yuzu_keys);
        let mut second = key_probes(dir, &ryujinx_guesses, &ryujinx_keys);
        let ghost a = first.deep_view();
        let ghost b = second.deep_view();
        probes.append(&mut first);
        probes.append(&mut second);
        assert(probes.deep_view() =~= before + (a + b));
    } else {
        assert(probes.deep_view() =~= before + Seq::<Seq<char>>::empty());
    }
}

/// The paths whose existence `find_keys` asks for, given the same three
/// directories.
pub fn find_keys_probes(
    data_dir: &Option<String>,
    config_dir: &Option<String>,
    data_local_dir: &Option<String>,
) -> (probes: Vec<String>)
    ensures
        probes.deep_view() == probes_below(*data_dir) + probes_below(*config_dir) + probes_below(
            *data_local_dir,
        ),
{
    let mut probes: Vec<String> = Vec::new();
    add_probes_below(&mut probes, data_dir);
    add_probes_below(&mut probes, config_dir);
    add_probes_below(&mut probes, data_local_dir);
    assert(probes.deep_view() =~= probes_below(*data_dir) + probes_below(*config_dir)
        + probes_below(*data_local_dir));
    probes
}

/// The production key files of both emulators below the user's data,
/// configuration and local data directories, each once, in the order in which
/// they are found. `existing` holds the paths that exist.
pub fn find_keys(
    data_dir: &Option<String>,
    config_dir: &Option<String>,
    data_local_dir: &Option<String>,
    existing: &Vec<String>,
) -> (r: Result<Vec<String>, Error>)
    ensures
        r matches Ok(keys) && keys.deep_view() == keys_below(
            keys_below(
                keys_below(Seq::empty(), *data_dir, existing.deep_view()),
                *config_dir,
                existing.deep_view(),
            ),
            *data_local_dir,
            existing.deep_view(),
        ),
{
    let mut found_keys: Vec<String> = Vec::new();
    assert(found_keys.deep_view() =~= Seq::<Seq<char>>::empty());
    find_keys_below(&mut found_keys, data_dir, existing);
    find_keys_below(&mut found_keys, config_dir, existing);
    find_keys_below(&mut found_keys, data_local_dir, existing);
    Ok(found_keys)
}

} // verus!
