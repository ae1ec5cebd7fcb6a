//! Output paths: where in the tree of opened containers a texture was found.
//!
//! A path is kept relative to the container that the walk began with, as text
//! with `/` between its parts. The path of that container itself is empty.

use crate::text::{
    append_chars, chars_of, lemma_without_brings_nothing_in, remove_all, replace_char,
    with_char_replaced, without,
};
use vstd::prelude::*;

verus! {

/// What stands between the parts of a path.
pub const SEPARATOR: char = '/';

/// What takes the place of a separator in a flattened path.
pub const FLAT_SEPARATOR: char = '_';

/// What stands before an extension.
pub const DOT: char = '.';

/// The first marker that a flattened path leaves out.
pub open spec fn marker_output() -> Seq<char> {
    seq!['o', 'u', 't', 'p', 'u', 't']
}

/// The second marker that a flattened path leaves out.
pub open spec fn marker_platform() -> Seq<char> {
    seq!['.', 'N', 'i', 'n', '_', 'N', 'X', '_', 'N', 'V', 'N']
}

/// The marker that a flattened path leaves out once its separators are
/// underscores.
pub open spec fn marker_model() -> Seq<char> {
    seq!['M', 'o', 'd', 'e', 'l', '_']
}

/// `name` below `base`.
pub open spec fn joined(base: Seq<char>, name: Seq<char>) -> Seq<char> {
    if base.len() == 0 {
        name
    } else {
        base + seq![SEPARATOR] + name
    }
}

/// Where the last part of `p` begins: behind the last separator, or at 0.
pub open spec fn name_start(p: Seq<char>) -> int
    decreases p.len(),
{
    if p.len() == 0 {
        0
    } else if p.last() == SEPARATOR {
        p.len() as int
    } else {
        name_start(p.drop_last())
    }
}

/// The last part of `p`.
pub open spec fn file_name(p: Seq<char>) -> Seq<char> {
    p.skip(name_start(p))
}

/// `p` without its last part and the separator before it.
pub open spec fn parent(p: Seq<char>) -> Seq<char> {
    if name_start(p) == 0 {
        Seq::empty()
    } else {
        p.take(name_start(p) - 1)
    }
}

/// The index of the last dot of `name`, or -1.
pub open spec fn last_dot(name: Seq<char>) -> int
    decreases name.len(),
{
    if name.len() == 0 {
        -1
    } else if name.last() == DOT {
        name.len() - 1
    } else {
        last_dot(name.drop_last())
    }
}

/// The length of the stem of `name`: up to its last dot, unless that dot is
/// its first character or it has none.
pub open spec fn stem_len(name: Seq<char>) -> int {
    if last_dot(name) > 0 {
        last_dot(name)
    } else {
        name.len() as int
    }
}

/// The extension of the last part of `p`: what follows its last dot, unless
/// that dot is its first character or it has none.
pub open spec fn extension(p: Seq<char>) -> Option<Seq<char>> {
    if last_dot(file_name(p)) > 0 {
        Some(file_name(p).skip(last_dot(file_name(p)) + 1))
    } else {
        None
    }
}

/// The last part of `p` without its extension.
pub open spec fn file_stem(p: Seq<char>) -> Seq<char> {
    file_name(p).take(stem_len(file_name(p)))
}

/// `p` with the extension of its last part replaced by `ext`, or taken off
/// where `ext` is empty. A path whose last part is empty stays as it is.
pub open spec fn with_extension(p: Seq<char>, ext: Seq<char>) -> Seq<char> {
    if file_name(p).len() == 0 {
        p
    } else if ext.len() == 0 {
        p.take(name_start(p) + stem_len(file_name(p)))
    } else {
        p.take(name_start(p) + stem_len(file_name(p))) + seq![DOT] + ext
    }
}

/// The directory that the container at `p` opens into: beside it, named by
/// its stem.
pub open spec fn opened(p: Seq<char>) -> Seq<char> {
    joined(parent(p), file_stem(p))
}

/// The path as one word: the two markers taken out, every separator turned
/// into an underscore, then the third marker taken out.
pub open spec fn flattened(p: Seq<char>) -> Seq<char> {
    without(
        with_char_replaced(
            without(without(p, marker_output()), marker_platform()),
            SEPARATOR,
            FLAT_SEPARATOR,
        ),
        marker_model(),
    )
}

/// A path below the container that the walk began with.
pub struct OutputPath {
    text: Vec<char>,
}

impl View for OutputPath {
    type V = Seq<char>;

    closed spec fn view(&self) -> Seq<char> {
        self.text@
    }
}

/// Where the last part of `p` begins.
fn find_name_start(p: &Vec<char>) -> (k: usize)
    ensures
        k == name_start(p@),
        k <= p.len(),
{
    let mut i: usize = p.len();
    assert(p@.take(i as int) =~= p@);
    while i > 0
        invariant
            i <= p.len(),
            name_start(p@) == name_start(p@.take(i as int)),
        decreases i,
    {
        if p[i - 1] == SEPARATOR {
            return i;
        }
        assert(p@.take(i as int).drop_last() =~= p@.take(i - 1));
        i -= 1;
    }
    0
}

/// The length of the stem of `p[from..]`.
fn find_stem_len(p: &Vec<char>, from: usize) -> (n: usize)
    requires
        from <= p.len(),
    ensures
        n == stem_len(p@.skip(from as int)),
        from + n <= p.len(),
{
    let ghost name = p@.skip(from as int);
    let mut i: usize = p.len();
    assert(name.take(i - from) =~= name);
    while i > from
        invariant
            from <= i <= p.len(),
            name == p@.skip(from as int),
            last_dot(name) == last_dot(name.take(i - from)),
        decreases i,
    {
        if p[i - 1] == DOT {
            assert(name.take(i - from).last() == p@[i - 1]);
            return if i - 1 > from {
                i - 1 - from
            } else {
                p.len() - from
            };
        }
        assert(name.take(i - from).last() == p@[i - 1]);
        assert(name.take(i - from).drop_last() =~= name.take(i - 1 - from));
        i -= 1;
    }
    p.len() - from
}

/// The characters `p[from..to]`.
fn slice_of(p: &Vec<char>, from: usize, to: usize) -> (out: Vec<char>)
    requires
        from <= to <= p.len(),
    ensures
        out@ == p@.subrange(from as int, to as int),
{
    let mut out: Vec<char> = Vec::new();
    let mut i: usize = from;
    while i < to
        invariant
            from <= i <= to <= p.len(),
            out@ == p@.subrange(from as int, i as int),
        decreases to - i,
    {
        out.push(p[i]);
        assert(p@.subrange(from as int, i + 1) =~= p@.subrange(from as int, i as int).push(
            p@[i as int],
        ));
        i += 1;
    }
    out
}

/// The extension of the last part of the path `p`.
pub fn extension_of(p: &Vec<char>) -> (ext: Option<Vec<char>>)
    ensures
        match ext {
            Some(e) => extension(p@) == Some(e@),
            None => extension(p@) is None,
        },
{
    let start = find_name_start(p);
    let len = find_stem_len(p, start);
    if len > 0 && start + len < p.len() {
        let ext = slice_of(p, start + len + 1, p.len());
        assert(ext@ =~= file_name(p@).skip(last_dot(file_name(p@)) + 1));
        Some(ext)
    } else {
        proof {
            lemma_last_dot_bounds(file_name(p@));
        }
        None
    }
}

/// The last dot of `name` lies in `name`, and is a dot.
pub proof fn lemma_last_dot_bounds(name: Seq<char>)
    ensures
        -1 <= last_dot(name) < name.len(),
        last_dot(name) >= 0 ==> name[last_dot(name)] == DOT,
    decreases name.len(),
{
    if name.len() > 0 && name.last() != DOT {
        lemma_last_dot_bounds(name.drop_last());
    }
}

impl OutputPath {
    /// The path of the container that the walk began with.
    pub fn root() -> (p: OutputPath)
        ensures
            p@ == Seq::<char>::empty(),
    {
        OutputPath { text: Vec::new() }
    }

    /// The path written as `text`.
    pub fn from_str(text: &str) -> (p: OutputPath)
        ensures
            p@ == text@,
    {
        OutputPath { text: chars_of(text) }
    }

    /// The characters of the path.
    pub fn chars(&self) -> (c: &Vec<char>)
        ensures
            c@ == self@,
    {
        &self.text
    }

    /// `name` below this path.
    pub fn join(&self, name: &Vec<char>) -> (p: OutputPath)
        ensures
            p@ == joined(self@, name@),
    {
        let mut text: Vec<char> = Vec::new();
        if self.text.len() > 0 {
            append_chars(&mut text, &self.text);
            text.push(SEPARATOR);
        }
        append_chars(&mut text, name);
        assert(text@ =~= joined(self@, name@));
        OutputPath { text }
    }

    /// This path without its last part.
    pub fn parent(&self) -> (p: OutputPath)
        ensures
            p@ == parent(self@),
    {
        let start = find_name_start(&self.text);
        if start == 0 {
            OutputPath { text: Vec::new() }
        } else {
            let text = slice_of(&self.text, 0, start - 1);
            assert(text@ =~= parent(self@));
            OutputPath { text }
        }
    }

    /// The last part of this path without its extension.
    pub fn file_stem(&self) -> (stem: Vec<char>)
        ensures
            stem@ == file_stem(self@),
    {
        let start = find_name_start(&self.text);
        let len = find_stem_len(&self.text, start);
        let stem = slice_of(&self.text, start, start + len);
        assert(stem@ =~= file_stem(self@));
        stem
    }

    /// Replaces the extension of the last part by `ext`.
    pub fn set_extension(&mut self, ext: &Vec<char>)
        ensures
            final(self)@ == with_extension(old(self)@, ext@),
    {
        let start = find_name_start(&self.text);
        if start < self.text.len() {
            let len = find_stem_len(&self.text, start);
            let mut text = slice_of(&self.text, 0, start + len);
            if ext.len() > 0 {
                text.push(DOT);
                append_chars(&mut text, ext);
            }
            assert(text@ =~= with_extension(self@, ext@));
            self.text = text;
        }
    }

    /// The directory that the container at this path opens into.
    pub fn opened(&self) -> (p: OutputPath)
        ensures
            p@ == opened(self@),
    {
        let stem = self.file_stem();
        self.parent().join(&stem)
    }

    /// This path as one word, for the names of archive entries.
    pub fn flattened(&self) -> (flat: Vec<char>)
        ensures
            flat@ == flattened(self@),
    {
        let output: Vec<char> = vec!['o', 'u', 't', 'p', 'u', 't'];
        let platform: Vec<char> = vec!['.', 'N', 'i', 'n', '_', 'N', 'X', '_', 'N', 'V', 'N'];
        let model: Vec<char> = vec!['M', 'o', 'd', 'e', 'l', '_'];
        assert(output@ =~= marker_output());
        assert(platform@ =~= marker_platform());
        assert(model@ =~= marker_model());
        let a = remove_all(&self.text, &output);
        let b = remove_all(&a, &platform);
        let c = replace_char(&b, SEPARATOR, FLAT_SEPARATOR);
        remove_all(&c, &model)
    }
}

/// Where the last part begins: behind a separator or at 0, and no separator
/// follows.
pub proof fn lemma_name_start_bounds(p: Seq<char>)
    ensures
        0 <= name_start(p) <= p.len(),
        name_start(p) > 0 ==> p[name_start(p) - 1] == SEPARATOR,
        forall|i: int| name_start(p) <= i < p.len() ==> p[i] != SEPARATOR,
    decreases p.len(),
{
    if p.len() > 0 && p.last() != SEPARATOR {
        lemma_name_start_bounds(p.drop_last());
        assert forall|i: int| name_start(p) <= i < p.len() implies p[i] != SEPARATOR by {
            if i < p.len() - 1 {
                assert(p.drop_last()[i] == p[i]);
            }
        }
    }
}

/// Only one index lies behind a separator or at 0 with no separator after it.
pub proof fn lemma_name_start_unique(p: Seq<char>, k: int)
    requires
        0 <= k <= p.len(),
        k > 0 ==> p[k - 1] == SEPARATOR,
        forall|i: int| k <= i < p.len() ==> p[i] != SEPARATOR,
    ensures
        name_start(p) == k,
{
    lemma_name_start_bounds(p);
    let n = name_start(p);
    if n < k {
        assert(p[k - 1] != SEPARATOR);
    } else if n > k {
        assert(p[n - 1] != SEPARATOR);
    }
}

/// Only one index holds a dot with no dot after it.
pub proof fn lemma_last_dot_unique(name: Seq<char>, k: int)
    requires
        -1 <= k < name.len(),
        k >= 0 ==> name[k] == DOT,
        forall|i: int| k < i < name.len() ==> name[i] != DOT,
    ensures
        last_dot(name) == k,
    decreases name.len(),
{
    if name.len() > 0 && name.last() != DOT {
        let rest = name.drop_last();
        assert forall|i: int| k < i < rest.len() implies rest[i] != DOT by {
            assert(rest[i] == name[i]);
        }
        lemma_last_dot_unique(rest, k);
    }
}

/// No dot follows the last dot.
pub proof fn lemma_last_dot_is_last(name: Seq<char>)
    ensures
        forall|i: int| last_dot(name) < i < name.len() ==> name[i] != DOT,
    decreases name.len(),
{
    lemma_last_dot_bounds(name);
    if name.len() > 0 && name.last() != DOT {
        lemma_last_dot_is_last(name.drop_last());
        assert forall|i: int| last_dot(name) < i < name.len() implies name[i] != DOT by {
            if i < name.len() - 1 {
                assert(name.drop_last()[i] == name[i]);
            }
        }
    }
}

/// A container opens into a directory named after itself, whatever the
/// extension of its kind: with an extension that is not empty and holds
/// neither dot nor separator, the path that a container at `p` opens into is
/// the stem of `p` beside `p`.
pub proof fn lemma_opened_ignores_extension(p: Seq<char>, ext: Seq<char>)
    requires
        file_name(p).len() > 0,
        ext.len() > 0,
        !ext.contains(DOT),
        !ext.contains(SEPARATOR),
    ensures
        opened(with_extension(p, ext)) == joined(parent(p), file_stem(p)),
{
    lemma_name_start_bounds(p);
    let ns = name_start(p);
    let name = file_name(p);
    lemma_last_dot_bounds(name);
    lemma_last_dot_is_last(name);
    let sl = stem_len(name);
    let stem = name.take(sl);
    let q = with_extension(p, ext);
    assert(q == p.take(ns + sl) + seq![DOT] + ext);
    assert forall|i: int| ns <= i < q.len() implies q[i] != SEPARATOR by {
        if i < ns + sl {
            assert(q[i] == p[i]);
        } else if i > ns + sl {
            assert(q[i] == ext[i - ns - sl - 1]);
            assert(ext.contains(ext[i - ns - sl - 1]));
        }
    }
    if ns > 0 {
        assert(q[ns - 1] == p[ns - 1]);
    }
    lemma_name_start_unique(q, ns);
    let qname = file_name(q);
    assert(qname =~= stem + seq![DOT] + ext);
    assert forall|i: int| sl < i < qname.len() implies qname[i] != DOT by {
        assert(qname[i] == ext[i - sl - 1]);
        assert(ext.contains(ext[i - sl - 1]));
    }
    assert(qname[sl] == DOT);
    lemma_last_dot_unique(qname, sl);
    assert(sl > 0);
    assert(file_stem(q) =~= stem);
    assert(parent(q) =~= parent(p));
}

/// A flattened path holds no separator.
pub proof fn lemma_flattened_has_no_separator(p: Seq<char>)
    ensures
        !flattened(p).contains(SEPARATOR),
{
    let replaced = with_char_replaced(
        without(without(p, marker_output()), marker_platform()),
        SEPARATOR,
        FLAT_SEPARATOR,
    );
    assert forall|i: int| 0 <= i < replaced.len() implies replaced[i] != SEPARATOR by {}
    lemma_without_brings_nothing_in(replaced, marker_model(), SEPARATOR);
}

/// Flattening brings in no character but the underscore: a character that is
/// no underscore and not in `p` is not in the flattened `p`.
pub proof fn lemma_flattened_brings_nothing_in(p: Seq<char>, c: char)
    requires
        c != FLAT_SEPARATOR,
        !p.contains(c),
    ensures
        !flattened(p).contains(c),
{
    let a = without(p, marker_output());
    lemma_without_brings_nothing_in(p, marker_output(), c);
    let b = without(a, marker_platform());
    lemma_without_brings_nothing_in(a, marker_platform(), c);
    let replaced = with_char_replaced(b, SEPARATOR, FLAT_SEPARATOR);
    assert forall|i: int| 0 <= i < replaced.len() implies replaced[i] != c by {
        assert(b.contains(b[i]));
    }
    lemma_without_brings_nothing_in(replaced, marker_model(), c);
}

} // verus!
