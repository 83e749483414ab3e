use vstd::prelude::*;

use crate::platform::Os;
use crate::text::{chars_of, concat_str, seq_join, slice_chars, string_from_chars};

verus! {

// ---------------------------------------------------------------------------
// Prefixes and roots
//
// A path is read as `std::path::Path` reads it on the given system: a prefix
// (Windows only), a root, and components separated by separators. Empty
// components and `.` components after the start are no components at all.
// ---------------------------------------------------------------------------

pub open spec fn is_ascii_letter(c: char) -> bool {
    ('a' <= c && c <= 'z') || ('A' <= c && c <= 'Z')
}

/// `/` or `\`, the separators that Windows accepts.
pub open spec fn is_windows_separator(c: char) -> bool {
    c == '/' || c == '\\'
}

/// The first index at or after `from` that holds a separator (only `\` in a
/// verbatim path), or the length of `p` when there is none.
pub open spec fn next_separator(p: Seq<char>, from: int, verbatim: bool) -> int
    decreases p.len() - from,
{
    if from < 0 || from >= p.len() {
        p.len() as int
    } else if (if verbatim {
        p[from] == '\\'
    } else {
        is_windows_separator(p[from])
    }) {
        from
    } else {
        next_separator(p, from + 1, verbatim)
    }
}

/// The Windows prefix of `p` (`std::path::Prefix`), as its length, whether
/// it is verbatim, and whether it is a plain drive:
/// `\\?\UNC\server\share`, `\\?\C:`, `\\?\name` (verbatim), `\\.\device`,
/// `\\server\share` (both names non-empty), or `C:`.
pub open spec fn windows_prefix(p: Seq<char>) -> Option<(int, bool, bool)> {
    if p.len() >= 2 && is_windows_separator(p[0]) && is_windows_separator(p[1]) {
        if p.len() >= 4 && p[0] == '\\' && p[1] == '\\' && p[2] == '?' && p[3] == '\\' {
            if p.len() >= 8 && p[4] == 'U' && p[5] == 'N' && p[6] == 'C' && is_windows_separator(
                p[7],
            ) {
                let e1 = next_separator(p, 8, true);
                if e1 >= p.len() {
                    Some((e1, true, false))
                } else {
                    let e2 = next_separator(p, e1 + 1, true);
                    if e2 > e1 + 1 {
                        Some((e2, true, false))
                    } else {
                        Some((e1, true, false))
                    }
                }
            } else if p.len() >= 6 && is_ascii_letter(p[4]) && p[5] == ':' && (p.len() == 6 || p[6]
                == '\\') {
                Some((6, true, false))
            } else {
                Some((next_separator(p, 4, true), true, false))
            }
        } else if p.len() >= 4 && p[2] == '.' && is_windows_separator(p[3]) {
            Some((next_separator(p, 4, false), false, false))
        } else {
            let e1 = next_separator(p, 2, false);
            if e1 >= p.len() {
                None
            } else {
                let e2 = next_separator(p, e1 + 1, false);
                if e1 > 2 && e2 > e1 + 1 {
                    Some((e2, false, false))
                } else {
                    None
                }
            }
        }
    } else if p.len() >= 2 && is_ascii_letter(p[0]) && p[1] == ':' {
        Some((2, false, true))
    } else {
        None
    }
}

/// The prefix of `p` on `os` (only Windows paths have one).
pub open spec fn path_prefix(os: Os, p: Seq<char>) -> Option<(int, bool, bool)> {
    if os == Os::Windows {
        windows_prefix(p)
    } else {
        None
    }
}

pub open spec fn prefix_len(os: Os, p: Seq<char>) -> int {
    match path_prefix(os, p) {
        Some(x) => x.0,
        None => 0,
    }
}

/// `p` begins with a verbatim prefix (`\\?\`).
pub open spec fn is_verbatim(os: Os, p: Seq<char>) -> bool {
    match path_prefix(os, p) {
        Some(x) => x.1,
        None => false,
    }
}

/// `c` separates components: any separator of `os`, but only `\` in a
/// verbatim path.
pub open spec fn component_separator(os: Os, verbatim: bool, c: char) -> bool {
    if verbatim {
        c == '\\'
    } else {
        os.spec_is_separator(c)
    }
}

/// A separator follows the prefix.
pub open spec fn has_physical_root(os: Os, p: Seq<char>) -> bool {
    p.len() > prefix_len(os, p) && os.spec_is_separator(p[prefix_len(os, p)])
}

/// `p` has a root: a separator after the prefix, or a prefix other than a
/// drive.
pub open spec fn has_root(os: Os, p: Seq<char>) -> bool {
    has_physical_root(os, p) || match path_prefix(os, p) {
        Some(x) => !x.2,
        None => false,
    }
}

/// A path without a root that starts with a `.` component.
pub open spec fn starts_with_cur_dir(os: Os, p: Seq<char>) -> bool {
    let pl = prefix_len(os, p);
    !has_root(os, p) && p.len() > pl && p[pl] == '.' && (p.len() == pl + 1
        || component_separator(os, is_verbatim(os, p), p[pl + 1]))
}

/// Where the components of `p` begin: after its prefix, its root and a
/// leading `.`.
pub open spec fn body_start(os: Os, p: Seq<char>) -> int {
    prefix_len(os, p) + (if has_physical_root(os, p) {
        1int
    } else {
        0int
    }) + (if starts_with_cur_dir(os, p) {
        1int
    } else {
        0int
    })
}

// ---------------------------------------------------------------------------
// Components from the back
// ---------------------------------------------------------------------------

/// The index just after the last separator in `p[lo..n]`, or `lo`.
pub open spec fn component_start(os: Os, v: bool, p: Seq<char>, lo: int, n: int) -> int
    decreases n,
{
    if n <= lo || n <= 0 {
        lo
    } else if component_separator(os, v, p[n - 1]) {
        n
    } else {
        component_start(os, v, p, lo, n - 1)
    }
}

/// A component that is none: empty, or `.` outside verbatim paths.
pub open spec fn is_noise(v: bool, comp: Seq<char>) -> bool {
    comp.len() == 0 || (!v && comp == seq!['.'])
}

/// The length of `p[..n]` once the empty and `.` components at its end, with
/// their separators, are taken off (never below `lo`).
pub open spec fn trim_noise(os: Os, v: bool, p: Seq<char>, lo: int, n: int) -> int
    decreases n,
{
    if n <= lo || n <= 0 {
        n
    } else {
        let cs = component_start(os, v, p, lo, n);
        let next = if cs > lo {
            cs - 1
        } else {
            lo
        };
        if is_noise(v, p.subrange(cs, n)) && 0 <= next < n {
            trim_noise(os, v, p, lo, next)
        } else {
            n
        }
    }
}

/// The bounds of the last component of `p`, if it has one.
pub open spec fn last_component(os: Os, p: Seq<char>) -> Option<(int, int)> {
    let v = is_verbatim(os, p);
    let lo = body_start(os, p);
    let n1 = trim_noise(os, v, p, lo, p.len() as int);
    if n1 > lo {
        Some((component_start(os, v, p, lo, n1), n1))
    } else {
        None
    }
}

/// The last component of `p[lo..n]` starts at `a` when `p[a..n]` holds no
/// separator and `a` is `lo` or follows a separator.
proof fn lemma_component_start_at(os: Os, v: bool, p: Seq<char>, lo: int, a: int, n: int)
    requires
        0 <= lo <= a <= n <= p.len(),
        forall|i: int| a <= i < n ==> !component_separator(os, v, #[trigger] p[i]),
        a == lo || component_separator(os, v, p[a - 1]),
    ensures
        component_start(os, v, p, lo, n) == a,
    decreases n,
{
    if n > a {
        lemma_component_start_at(os, v, p, lo, a, n - 1);
    }
}

/// The last component of `p`, if it names a file or directory
/// (`Path::file_name`): not `.` and not `..`.
pub open spec fn file_name(os: Os, p: Seq<char>) -> Option<Seq<char>> {
    match last_component(os, p) {
        Some((a, b)) => {
            let c = p.subrange(a, b);
            if c == seq!['.', '.'] || c == seq!['.'] {
                None
            } else {
                Some(c)
            }
        },
        None => None,
    }
}

/// `p` without its last component (`Path::parent`): what precedes it, without
/// the empty and `.` components that end it. A path with no component has no
/// parent, except that `.` (or `./`) has the empty path as its parent.
pub open spec fn parent_path(os: Os, p: Seq<char>) -> Option<Seq<char>> {
    let v = is_verbatim(os, p);
    let lo = body_start(os, p);
    match last_component(os, p) {
        Some((a, b)) => {
            let n2 = if a > lo {
                a - 1
            } else {
                lo
            };
            Some(p.take(trim_noise(os, v, p, lo, n2)))
        },
        None => if path_prefix(os, p) is None && !has_physical_root(os, p) && starts_with_cur_dir(
            os,
            p,
        ) {
            Some(p.take(lo - 1))
        } else {
            None
        },
    }
}

/// A path with no prefix, no root and no leading `.` that ends with a
/// separator, a component `x`, the main separator and a component `y`
/// (neither of them holding a separator, `x` not `.`, `y` neither `.` nor
/// `..`) has `y` as its file name and ends its parent with `x`.
pub proof fn lemma_last_two_components(os: Os, q: Seq<char>, x: Seq<char>, y: Seq<char>)
    requires
        q.len() > 0,
        x.len() > 0,
        y.len() > 0,
        x != seq!['.'],
        y != seq!['.'],
        y != seq!['.', '.'],
        forall|i: int| 0 <= i < x.len() ==> !os.spec_is_separator(#[trigger] x[i]),
        forall|i: int| 0 <= i < y.len() ==> !os.spec_is_separator(#[trigger] y[i]),
        path_prefix(os, q + seq![os.spec_main_separator()] + x + seq![os.spec_main_separator()] + y) is None,
        !has_physical_root(os, q + seq![os.spec_main_separator()] + x + seq![os.spec_main_separator()] + y),
        !starts_with_cur_dir(os, q + seq![os.spec_main_separator()] + x + seq![os.spec_main_separator()] + y),
    ensures
        file_name(os, q + seq![os.spec_main_separator()] + x + seq![os.spec_main_separator()] + y)
            == Some(y),
        parent_path(os, q + seq![os.spec_main_separator()] + x + seq![os.spec_main_separator()] + y)
            == Some(q + seq![os.spec_main_separator()] + x),
{
    let s = seq![os.spec_main_separator()];
    let p = q + s + x + s + y;
    let n = p.len() as int;
    let a = n - y.len();
    let n2 = a - 1;
    let b = n2 - x.len();
    assert(!is_verbatim(os, p));
    assert(body_start(os, p) == 0);
    assert forall|i: int| a <= i < n implies !component_separator(os, false, #[trigger] p[i]) by {
        assert(p[i] == y[i - a]);
    }
    assert(p[a - 1] == os.spec_main_separator());
    lemma_component_start_at(os, false, p, 0, a, n);
    assert(p.subrange(a, n) =~= y);
    assert(trim_noise(os, false, p, 0, n) == n);
    assert(last_component(os, p) == Some((a, n)));
    assert forall|i: int| b <= i < n2 implies !component_separator(os, false, #[trigger] p[i]) by {
        assert(p[i] == x[i - b]);
    }
    assert(p[b - 1] == os.spec_main_separator());
    lemma_component_start_at(os, false, p, 0, b, n2);
    assert(p.subrange(b, n2) =~= x);
    assert(trim_noise(os, false, p, 0, n2) == n2);
    assert(p.take(n2) =~= q + s + x);
}

/// The parent of the parent of `p`.
pub open spec fn grandparent_path(os: Os, p: Seq<char>) -> Option<Seq<char>> {
    match parent_path(os, p) {
        Some(q) => parent_path(os, q),
        None => None,
    }
}

// ---------------------------------------------------------------------------
// Joining
// ---------------------------------------------------------------------------

/// `p` begins with a path separator of `os`.
pub open spec fn starts_with_separator(os: Os, p: Seq<char>) -> bool {
    p.len() > 0 && os.spec_is_separator(p[0])
}

/// Joining a relative part to `base` puts a separator between them: `base`
/// is not empty, does not end in a separator and is not a bare drive.
pub open spec fn needs_separator(os: Os, base: Seq<char>) -> bool {
    !(base.len() == 0 || os.spec_is_separator(base.last()) || match path_prefix(os, base) {
        Some(x) => x.2 && x.0 == base.len(),
        None => false,
    })
}

/// A component that names a file or directory: neither `.` nor `..`.
pub open spec fn is_normal_component(c: Seq<char>) -> bool {
    c != seq!['.'] && c != seq!['.', '.']
}

/// The components `buf` with the piece `piece` read after them. An empty
/// piece adds nothing. In a verbatim path every other piece is a component.
/// In a part pushed onto a verbatim path, `.` adds nothing and `..` takes
/// off the last component when that one names a file or directory.
pub open spec fn add_piece(buf: Seq<Seq<char>>, piece: Seq<char>, verbatim: bool) -> Seq<
    Seq<char>,
> {
    if piece.len() == 0 {
        buf
    } else if verbatim {
        buf.push(piece)
    } else if piece == seq!['.'] {
        buf
    } else if piece == seq!['.', '.'] {
        if buf.len() > 0 && is_normal_component(buf.last()) {
            buf.drop_last()
        } else {
            buf
        }
    } else {
        buf.push(piece)
    }
}

/// Reading the Windows path text `s` from the front after the components
/// `buf0`: the components so far and the piece being read. Pieces end at
/// `\` in a verbatim path, at `/` or `\` otherwise.
pub open spec fn scan_pieces(buf0: Seq<Seq<char>>, s: Seq<char>, verbatim: bool) -> (
    Seq<Seq<char>>,
    Seq<char>,
)
    decreases s.len(),
{
    if s.len() == 0 {
        (buf0, Seq::empty())
    } else {
        let st = scan_pieces(buf0, s.drop_last(), verbatim);
        if component_separator(Os::Windows, verbatim, s.last()) {
            (add_piece(st.0, st.1, verbatim), Seq::empty())
        } else {
            (st.0, st.1.push(s.last()))
        }
    }
}

/// The components `buf0` with those of the Windows path text `s` read after
/// them (see `add_piece`).
pub open spec fn read_pieces(buf0: Seq<Seq<char>>, s: Seq<char>, verbatim: bool) -> Seq<
    Seq<char>,
> {
    let st = scan_pieces(buf0, s, verbatim);
    add_piece(st.0, st.1, verbatim)
}

/// `part` (no prefix) pushed onto the verbatim Windows path `base`, as
/// `PathBuf::push` does it: the components of `base` after its prefix and
/// root, then those of `part` (see `add_piece`), a rooted `part` starting
/// again from the root; written as the prefix of `base`, a `\` when there is
/// a root or any component, and the components joined with `\`.
pub open spec fn verbatim_join(base: Seq<char>, part: Seq<char>) -> Seq<char> {
    let os = Os::Windows;
    let pl = prefix_len(os, base);
    let root0 = has_physical_root(os, base);
    let start = if root0 {
        pl + 1
    } else {
        pl
    };
    let rooted = starts_with_separator(os, part);
    let body0 = if rooted {
        Seq::empty()
    } else {
        read_pieces(Seq::empty(), base.subrange(start, base.len() as int), true)
    };
    let body = read_pieces(body0, part, false);
    base.take(pl) + (if root0 || rooted || body.len() > 0 {
        seq!['\\']
    } else {
        Seq::empty()
    }) + seq_join(body, seq!['\\'])
}

/// `base` adjoined with `part`, as `PathBuf::push` does: a `part` with a
/// prefix, or with a root outside Windows, replaces `base`; a non-empty
/// `part` pushed onto a verbatim `base` is read component by component
/// (`verbatim_join`); on Windows a rooted `part` replaces all of `base` but
/// its prefix; otherwise `part` follows `base`, after the main separator of
/// `os` where `needs_separator` says so.
pub open spec fn join_path(os: Os, base: Seq<char>, part: Seq<char>) -> Seq<char> {
    if path_prefix(os, part) is Some || (os != Os::Windows && starts_with_separator(os, part)) {
        part
    } else if is_verbatim(os, base) && part.len() > 0 {
        verbatim_join(base, part)
    } else if starts_with_separator(os, part) {
        base.take(prefix_len(os, base)) + part
    } else if needs_separator(os, base) {
        base.push(os.spec_main_separator()) + part
    } else {
        base + part
    }
}

/// A Windows path is verbatim exactly when it begins with `\\?\`.
pub proof fn lemma_verbatim_start(p: Seq<char>)
    ensures
        is_verbatim(Os::Windows, p) <==> (p.len() >= 4 && p[0] == '\\' && p[1] == '\\' && p[2]
            == '?' && p[3] == '\\'),
{
}

/// A part whose first character is no separator and whose second is no
/// `:` has neither prefix nor root.
pub proof fn lemma_plain_part_relative(os: Os, w: Seq<char>)
    requires
        w.len() >= 2,
        w[0] != '/' && w[0] != '\\',
        w[1] != ':',
    ensures
        is_relative_part(os, w),
{
}

/// A drive prefix is two characters long.
pub proof fn lemma_drive_prefix_len(os: Os, p: Seq<char>)
    ensures
        path_prefix(os, p) matches Some(x) ==> (x.2 ==> x.0 == 2),
{
}

/// Joining onto a path of three or more characters that ends in no
/// separator puts the main separator between.
pub proof fn lemma_gap_after_name(os: Os, b: Seq<char>)
    requires
        b.len() >= 3,
        !os.spec_is_separator(b.last()),
    ensures
        join_gap(os, b) == seq![os.spec_main_separator()],
{
    lemma_drive_prefix_len(os, b);
}

/// A `part` with neither prefix nor root on `os`: joining it keeps the base.
pub open spec fn is_relative_part(os: Os, part: Seq<char>) -> bool {
    path_prefix(os, part) is None && !starts_with_separator(os, part)
}

/// The separator that joining a relative part to `base` puts between them.
pub open spec fn join_gap(os: Os, base: Seq<char>) -> Seq<char> {
    if needs_separator(os, base) {
        seq![os.spec_main_separator()]
    } else {
        Seq::empty()
    }
}

/// Joining a relative part to a base that is not verbatim gives the base,
/// the gap that depends on the base alone, then the part.
pub proof fn lemma_join_relative(os: Os, base: Seq<char>, part: Seq<char>)
    requires
        is_relative_part(os, part),
        !is_verbatim(os, base),
    ensures
        join_path(os, base, part) == base + join_gap(os, base) + part,
        base.is_prefix_of(join_path(os, base, part)),
        part.is_suffix_of(join_path(os, base, part)),
        join_gap(os, base).len() <= 1,
{
    let j = join_path(os, base, part);
    let g = join_gap(os, base);
    if needs_separator(os, base) {
        assert(j =~= base + g + part);
    } else {
        assert(j =~= base + g + part);
    }
    assert(j.subrange(0, base.len() as int) =~= base);
    assert(j.subrange(j.len() - part.len(), j.len() as int) =~= part);
}

// ---------------------------------------------------------------------------
// Executable forms
// ---------------------------------------------------------------------------

fn ascii_letter(c: char) -> (b: bool)
    ensures
        b == is_ascii_letter(c),
{
    ('a' <= c && c <= 'z') || ('A' <= c && c <= 'Z')
}

fn windows_separator(c: char) -> (b: bool)
    ensures
        b == is_windows_separator(c),
{
    c == '/' || c == '\\'
}

fn separator_for(verbatim: bool, c: char) -> (b: bool)
    ensures
        b == if verbatim {
            c == '\\'
        } else {
            is_windows_separator(c)
        },
{
    if verbatim {
        c == '\\'
    } else {
        windows_separator(c)
    }
}

fn next_separator_exec(p: &Vec<char>, from: usize, verbatim: bool) -> (r: usize)
    requires
        from <= p@.len(),
    ensures
        r == next_separator(p@, from as int, verbatim),
        from <= r <= p@.len(),
{
    let mut i = from;
    while i < p.len() && !separator_for(verbatim, p[i])
        invariant
            from <= i <= p@.len(),
            next_separator(p@, from as int, verbatim) == next_separator(p@, i as int, verbatim),
        decreases p@.len() - i,
    {
        i = i + 1;
    }
    i
}

fn windows_prefix_exec(p: &Vec<char>) -> (r: Option<(usize, bool, bool)>)
    ensures
        match r {
            Some((l, v, d)) => windows_prefix(p@) == Some((l as int, v, d)) && l <= p@.len(),
            None => windows_prefix(p@) is None,
        },
{
    let n = p.len();
    if n >= 2 && windows_separator(p[0]) && windows_separator(p[1]) {
        if n >= 4 && p[0] == '\\' && p[1] == '\\' && p[2] == '?' && p[3] == '\\' {
            if n >= 8 && p[4] == 'U' && p[5] == 'N' && p[6] == 'C' && windows_separator(p[7]) {
                let e1 = next_separator_exec(p, 8, true);
                if e1 >= n {
                    Some((e1, true, false))
                } else {
                    let e2 = next_separator_exec(p, e1 + 1, true);
                    if e2 > e1 + 1 {
                        Some((e2, true, false))
                    } else {
                        Some((e1, true, false))
                    }
                }
            } else if n >= 6 && ascii_letter(p[4]) && p[5] == ':' && (n == 6 || p[6] == '\\') {
                Some((6, true, false))
            } else {
                Some((next_separator_exec(p, 4, true), true, false))
            }
        } else if n >= 4 && p[2] == '.' && windows_separator(p[3]) {
            Some((next_separator_exec(p, 4, false), false, false))
        } else {
            let e1 = next_separator_exec(p, 2, false);
            if e1 >= n {
                None
            } else {
                let e2 = next_separator_exec(p, e1 + 1, false);
                if e1 > 2 && e2 > e1 + 1 {
                    Some((e2, false, false))
                } else {
                    None
                }
            }
        }
    } else if n >= 2 && ascii_letter(p[0]) && p[1] == ':' {
        Some((2, false, true))
    } else {
        None
    }
}

fn path_prefix_exec(os: Os, p: &Vec<char>) -> (r: Option<(usize, bool, bool)>)
    ensures
        match r {
            Some((l, v, d)) => path_prefix(os, p@) == Some((l as int, v, d)) && l <= p@.len(),
            None => path_prefix(os, p@) is None,
        },
{
    if os == Os::Windows {
        windows_prefix_exec(p)
    } else {
        None
    }
}

fn component_separator_exec(os: Os, v: bool, c: char) -> (b: bool)
    ensures
        b == component_separator(os, v, c),
{
    if v {
        c == '\\'
    } else {
        os.is_separator(c)
    }
}

/// The layout of a path: where its components begin, whether it is verbatim,
/// whether it has a prefix, a physical root, and a leading `.`.
struct Layout {
    lo: usize,
    verbatim: bool,
    prefixed: bool,
    root: bool,
    cur_dir: bool,
}

fn layout(os: Os, p: &Vec<char>) -> (l: Layout)
    ensures
        l.lo == body_start(os, p@),
        l.lo <= p@.len(),
        l.verbatim == is_verbatim(os, p@),
        l.prefixed == path_prefix(os, p@) is Some,
        l.root == has_physical_root(os, p@),
        l.cur_dir == starts_with_cur_dir(os, p@),
{
    let pre = path_prefix_exec(os, p);
    let (pl, verbatim, prefixed, implicit_root) = match pre {
        Some((l, v, d)) => (l, v, true, !d),
        None => (0, false, false, false),
    };
    let root = p.len() > pl && os.is_separator(p[pl]);
    let has_root = root || implicit_root;
    let cur_dir = !has_root && p.len() > pl && p[pl] == '.' && (p.len() == pl + 1
        || component_separator_exec(os, verbatim, p[pl + 1]));
    let lo = pl + if root {
        1
    } else {
        0
    } + if cur_dir {
        1
    } else {
        0
    };
    Layout { lo, verbatim, prefixed, root, cur_dir }
}

fn component_start_exec(os: Os, v: bool, p: &Vec<char>, lo: usize, n: usize) -> (r: usize)
    requires
        lo <= n <= p@.len(),
    ensures
        r == component_start(os, v, p@, lo as int, n as int),
        lo <= r <= n,
{
    let mut i = n;
    while i > lo && !component_separator_exec(os, v, p[i - 1])
        invariant
            lo <= i <= n <= p@.len(),
            component_start(os, v, p@, lo as int, n as int) == component_start(
                os,
                v,
                p@,
                lo as int,
                i as int,
            ),
        decreases i,
    {
        i = i - 1;
    }
    i
}

fn noise_exec(v: bool, p: &Vec<char>, a: usize, b: usize) -> (r: bool)
    requires
        a <= b <= p@.len(),
    ensures
        r == is_noise(v, p@.subrange(a as int, b as int)),
{
    let r = a == b || (!v && b - a == 1 && p[a] == '.');
    assert(r == is_noise(v, p@.subrange(a as int, b as int))) by {
        let c = p@.subrange(a as int, b as int);
        if b - a == 1 && p@[a as int] == '.' {
            assert(c =~= seq!['.']);
        }
        if c == seq!['.'] {
            assert(c.len() == 1);
            assert(c[0] == p@[a as int]);
        }
    }
    r
}

fn trim_noise_exec(os: Os, v: bool, p: &Vec<char>, lo: usize, n: usize) -> (r: usize)
    requires
        lo <= n <= p@.len(),
    ensures
        r == trim_noise(os, v, p@, lo as int, n as int),
        lo <= r <= n,
{
    let mut m = n;
    loop
        invariant
            lo <= m <= n <= p@.len(),
            trim_noise(os, v, p@, lo as int, n as int) == trim_noise(
                os,
                v,
                p@,
                lo as int,
                m as int,
            ),
        decreases m,
    {
        if m <= lo {
            return m;
        }
        let cs = component_start_exec(os, v, p, lo, m);
        let next = if cs > lo {
            cs - 1
        } else {
            lo
        };
        if noise_exec(v, p, cs, m) && next < m {
            m = next;
        } else {
            return m;
        }
    }
}

/// The bounds of the last component of `p`, if it has one.
fn last_component_exec(os: Os, p: &Vec<char>, l: &Layout) -> (r: Option<(usize, usize)>)
    requires
        l.lo == body_start(os, p@),
        l.lo <= p@.len(),
        l.verbatim == is_verbatim(os, p@),
    ensures
        match r {
            Some((a, b)) => last_component(os, p@) == Some((a as int, b as int)) && l.lo <= a
                <= b <= p@.len(),
            None => last_component(os, p@) is None,
        },
{
    let n1 = trim_noise_exec(os, l.verbatim, p, l.lo, p.len());
    if n1 > l.lo {
        Some((component_start_exec(os, l.verbatim, p, l.lo, n1), n1))
    } else {
        None
    }
}

/// The file name of `p`, by its bounds in `p`.
pub fn file_name_bounds(os: Os, p: &Vec<char>) -> (r: Option<(usize, usize)>)
    ensures
        r matches Some((a, b)) ==> a <= b <= p@.len() && file_name(os, p@) == Some(
            p@.subrange(a as int, b as int),
        ),
        r is None ==> file_name(os, p@) is None,
{
    let l = layout(os, p);
    match last_component_exec(os, p, &l) {
        Some((a, b)) => {
            let dot = b - a == 1 && p[a] == '.';
            let dotdot = b - a == 2 && p[a] == '.' && p[a + 1] == '.';
            proof {
                let c = p@.subrange(a as int, b as int);
                if c.len() == 1 && c[0] == '.' {
                    assert(c =~= seq!['.']);
                }
                if c.len() == 2 && c[0] == '.' && c[1] == '.' {
                    assert(c =~= seq!['.', '.']);
                }
                assert(dot == (c == seq!['.']));
                assert(dotdot == (c == seq!['.', '.']));
            }
            if dot || dotdot {
                None
            } else {
                Some((a, b))
            }
        },
        None => None,
    }
}

/// The file name of `p` (`Path::file_name`).
pub fn file_name_of(os: Os, p: &str) -> (r: Option<String>)
    ensures
        r matches Some(n) ==> file_name(os, p@) == Some(n@),
        r is None ==> file_name(os, p@) is None,
{
    let cs = chars_of(p);
    match file_name_bounds(os, &cs) {
        Some((a, b)) => {
            let v = slice_chars(&cs, a, b);
            Some(string_from_chars(v.as_slice()))
        },
        None => None,
    }
}

/// `p` without its last component (`Path::parent`).
pub fn parent_of(os: Os, p: &Vec<char>) -> (r: Option<Vec<char>>)
    ensures
        r matches Some(q) ==> parent_path(os, p@) == Some(q@),
        r is None ==> parent_path(os, p@) is None,
{
    let l = layout(os, p);
    match last_component_exec(os, p, &l) {
        Some((a, _b)) => {
            let n2 = if a > l.lo {
                a - 1
            } else {
                l.lo
            };
            let t = trim_noise_exec(os, l.verbatim, p, l.lo, n2);
            let q = slice_chars(p, 0, t);
            assert(q@ =~= p@.take(t as int));
            Some(q)
        },
        None => {
            if !l.prefixed && !l.root && l.cur_dir {
                let q = slice_chars(p, 0, l.lo - 1);
                assert(q@ =~= p@.take(l.lo - 1));
                Some(q)
            } else {
                None
            }
        },
    }
}

/// The texts of a list of character vectors.
spec fn char_views(v: Seq<Vec<char>>) -> Seq<Seq<char>> {
    v.map_values(|x: Vec<char>| x@)
}

fn normal_component(c: &Vec<char>) -> (b: bool)
    ensures
        b == is_normal_component(c@),
{
    let dot = c.len() == 1 && c[0] == '.';
    let dotdot = c.len() == 2 && c[0] == '.' && c[1] == '.';
    proof {
        if c@.len() == 1 && c@[0] == '.' {
            assert(c@ =~= seq!['.']);
        }
        if c@.len() == 2 && c@[0] == '.' && c@[1] == '.' {
            assert(c@ =~= seq!['.', '.']);
        }
        if c@ == seq!['.'] {
            assert(c@.len() == 1 && c@[0] == '.');
        }
        if c@ == seq!['.', '.'] {
            assert(c@.len() == 2 && c@[0] == '.' && c@[1] == '.');
        }
    }
    !dot && !dotdot
}

fn add_piece_exec(buf: &mut Vec<Vec<char>>, piece: Vec<char>, verbatim: bool)
    ensures
        char_views(final(buf)@) == add_piece(char_views(old(buf)@), piece@, verbatim),
{
    let ghost before = char_views(buf@);
    if piece.len() == 0 {
        return;
    }
    if verbatim {
        buf.push(piece);
        assert(char_views(buf@) =~= before.push(piece@));
        return;
    }
    let normal = normal_component(&piece);
    let dot = piece.len() == 1;
    if !normal && dot {
        assert(piece@ == seq!['.']);
        return;
    }
    if !normal {
        assert(piece@ == seq!['.', '.']) by {
            assert(piece@ != seq!['.']) by {
                if piece@ == seq!['.'] {
                    assert(piece@.len() == 1);
                }
            }
        }
        let n = buf.len();
        if n > 0 && normal_component(&buf[n - 1]) {
            assert(before.last() == buf@[n - 1]@);
            buf.pop();
            assert(char_views(buf@) =~= before.drop_last());
        }
        return;
    }
    buf.push(piece);
    assert(char_views(buf@) =~= before.push(piece@));
}

/// Reads the pieces of `s[from..]` after the components in `buf`.
fn read_pieces_exec(buf: &mut Vec<Vec<char>>, s: &Vec<char>, from: usize, verbatim: bool)
    requires
        from <= s@.len(),
    ensures
        char_views(final(buf)@) == read_pieces(
            char_views(old(buf)@),
            s@.subrange(from as int, s@.len() as int),
            verbatim,
        ),
{
    let ghost buf0 = char_views(buf@);
    let mut cur: Vec<char> = Vec::new();
    let mut i: usize = from;
    assert(s@.subrange(from as int, from as int) =~= Seq::<char>::empty());
    while i < s.len()
        invariant
            from <= i <= s@.len(),
            scan_pieces(buf0, s@.subrange(from as int, i as int), verbatim) == (
                char_views(buf@),
                cur@,
            ),
        decreases s@.len() - i,
    {
        assert(s@.subrange(from as int, i + 1).drop_last() =~= s@.subrange(from as int, i as int));
        let c = s[i];
        if component_separator_exec(Os::Windows, verbatim, c) {
            let piece = cur;
            cur = Vec::new();
            add_piece_exec(buf, piece, verbatim);
        } else {
            cur.push(c);
        }
        i = i + 1;
    }
    add_piece_exec(buf, cur, verbatim);
}

/// `part` pushed onto the verbatim path `base` (see `verbatim_join`).
fn verbatim_join_exec(base: &Vec<char>, part: &Vec<char>) -> (r: Vec<char>)
    requires
        is_verbatim(Os::Windows, base@),
    ensures
        r@ == verbatim_join(base@, part@),
{
    let pl = match path_prefix_exec(Os::Windows, base) {
        Some((l, _, _)) => l,
        None => 0,
    };
    let root0 = base.len() > pl && windows_separator(base[pl]);
    let start = if root0 {
        pl + 1
    } else {
        pl
    };
    let rooted = part.len() > 0 && windows_separator(part[0]);
    let mut body: Vec<Vec<char>> = Vec::new();
    assert(char_views(body@) =~= Seq::<Seq<char>>::empty());
    if !rooted {
        read_pieces_exec(&mut body, base, start, true);
    }
    read_pieces_exec(&mut body, part, 0, false);
    assert(part@.subrange(0, part@.len() as int) =~= part@);
    let ghost views = char_views(body@);
    let mut out = slice_chars(base, 0, pl);
    if root0 || rooted || body.len() > 0 {
        out.push('\\');
    }
    let ghost head = out@;
    let mut j: usize = 0;
    while j < body.len()
        invariant
            j <= body@.len(),
            views == char_views(body@),
            out@ == head + seq_join(views.take(j as int), seq!['\\']),
        decreases body@.len() - j,
    {
        assert(views.take(j + 1).drop_last() =~= views.take(j as int));
        if j > 0 {
            out.push('\\');
        }
        let mut piece = slice_chars(&body[j], 0, body[j].len());
        assert(piece@ =~= views[j as int]);
        out.append(&mut piece);
        j = j + 1;
        assert(out@ =~= head + seq_join(views.take(j as int), seq!['\\'])) by {
            if j == 1 {
                assert(views.take(0) =~= Seq::<Seq<char>>::empty());
            }
        }
    }
    assert(views.take(body@.len() as int) =~= views);
    out
}

/// `base` adjoined with `part` (see `join_path`).
pub fn join(os: Os, base: &str, part: &str) -> (r: String)
    ensures
        r@ == join_path(os, base@, part@),
{
    let b = chars_of(base);
    let p = chars_of(part);
    let part_prefix = path_prefix_exec(os, &p);
    let rooted = p.len() > 0 && os.is_separator(p[0]);
    let base_verbatim = match path_prefix_exec(os, &b) {
        Some((_, v, _)) => v,
        None => false,
    };
    if part_prefix.is_some() || (os != Os::Windows && rooted) {
        String::from_str(part)
    } else if base_verbatim && p.len() > 0 {
        let r = verbatim_join_exec(&b, &p);
        string_from_chars(r.as_slice())
    } else if rooted {
        let bl = match path_prefix_exec(os, &b) {
            Some((l, _, _)) => l,
            None => 0,
        };
        let head = slice_chars(&b, 0, bl);
        assert(head@ =~= b@.take(prefix_len(os, b@)));
        let h = string_from_chars(head.as_slice());
        concat_str(h.as_str(), part)
    } else {
        let bare_drive = match path_prefix_exec(os, &b) {
            Some((l, _, d)) => d && l == b.len(),
            None => false,
        };
        if b.len() == 0 || os.is_separator(b[b.len() - 1]) || bare_drive {
            concat_str(base, part)
        } else {
            let mut bs = b.clone();
            bs.push(os.main_separator());
            let h = string_from_chars(bs.as_slice());
            concat_str(h.as_str(), part)
        }
    }
}

} // verus!
