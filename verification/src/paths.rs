use vstd::prelude::*;

use crate::platform::Os;
use crate::path_syntax::{
    file_name, file_name_bounds, has_physical_root, is_relative_part, is_verbatim, join, join_gap,
    join_path, lemma_gap_after_name, lemma_join_relative, lemma_last_two_components,
    lemma_plain_part_relative, parent_path, path_prefix, starts_with_cur_dir,
};
use crate::text::{chars_of, concat_str, ends_with_char, slice_chars, string_from_chars};

verus! {

// ---------------------------------------------------------------------------
// Absolute forms
// ---------------------------------------------------------------------------

/// The verbatim prefix `\\?\` that Windows puts before canonical paths.
pub open spec fn verbatim_prefix() -> Seq<char> {
    seq!['\\', '\\', '?', '\\']
}

/// `s` with every leading copy of `pat` taken off (`str::trim_start_matches`).
pub open spec fn trim_start_matches(s: Seq<char>, pat: Seq<char>) -> Seq<char>
    decreases s.len(),
{
    if pat.len() > 0 && pat.len() <= s.len() && s.take(pat.len() as int) == pat {
        trim_start_matches(s.skip(pat.len() as int), pat)
    } else {
        s
    }
}

/// The text a resolved path is shown by: the resolved path, or nothing when
/// it could not be resolved, without leading verbatim prefixes.
pub open spec fn absolute_form(resolved: Option<Seq<char>>) -> Seq<char> {
    trim_start_matches(
        match resolved {
            Some(r) => r,
            None => Seq::empty(),
        },
        verbatim_prefix(),
    )
}

fn verbatim_prefix_exec() -> (v: Vec<char>)
    ensures
        v@ == verbatim_prefix(),
{
    let mut v: Vec<char> = Vec::new();
    v.push('\\');
    v.push('\\');
    v.push('?');
    v.push('\\');
    assert(v@ =~= verbatim_prefix());
    v
}

/// `s` with every leading copy of `pat` taken off.
pub fn trim_start_matches_exec(s: &str, pat: &Vec<char>) -> (r: String)
    ensures
        r@ == trim_start_matches(s@, pat@),
{
    let cs = chars_of(s);
    let mut i: usize = 0;
    let n = pat.len();
    if n == 0 {
        return String::from_str(s);
    }
    assert(s@.skip(0) =~= s@);
    while n <= cs.len() - i && starts_at(&cs, pat, i)
        invariant
            cs@ == s@,
            n == pat@.len(),
            n > 0,
            i <= cs@.len(),
            trim_start_matches(s@, pat@) == trim_start_matches(s@.skip(i as int), pat@),
        decreases cs@.len() - i,
    {
        proof {
            let rest = s@.skip(i as int);
            assert(rest.take(n as int) =~= cs@.subrange(i as int, i + n));
            assert(rest.skip(n as int) =~= s@.skip(i + n));
        }
        i = i + n;
    }
    proof {
        let rest = s@.skip(i as int);
        if n <= cs@.len() - i {
            assert(rest.take(n as int) =~= cs@.subrange(i as int, i + n));
        }
    }
    let mut out: Vec<char> = Vec::new();
    let mut k = i;
    while k < cs.len()
        invariant
            cs@ == s@,
            i <= k <= cs@.len(),
            out@ == cs@.subrange(i as int, k as int),
        decreases cs@.len() - k,
    {
        out.push(cs[k]);
        k = k + 1;
        assert(out@ =~= cs@.subrange(i as int, k as int));
    }
    assert(out@ =~= s@.skip(i as int));
    string_from_chars(out.as_slice())
}

/// Whether `pat` stands in `cs` at index `i`.
fn starts_at(cs: &Vec<char>, pat: &Vec<char>, i: usize) -> (b: bool)
    requires
        i + pat@.len() <= cs@.len(),
    ensures
        b == (cs@.subrange(i as int, i + pat@.len()) == pat@),
{
    let mut k: usize = 0;
    while k < pat.len()
        invariant
            i + pat@.len() <= cs@.len(),
            cs@.len() == cs.len(),
            k <= pat@.len(),
            forall|j: int| 0 <= j < k ==> cs@[i + j] == pat@[j],
        decreases pat@.len() - k,
    {
        if cs[i + k] != pat[k] {
            assert(cs@.subrange(i as int, i + pat@.len())[k as int] != pat@[k as int]);
            return false;
        }
        k = k + 1;
    }
    assert(cs@.subrange(i as int, i + pat@.len()) =~= pat@);
    true
}

/// Taking the prefixes off again changes nothing, and what is left does not
/// begin with the prefix.
pub proof fn lemma_trim_start_matches_idempotent(s: Seq<char>, pat: Seq<char>)
    requires
        pat.len() > 0,
    ensures
        trim_start_matches(trim_start_matches(s, pat), pat) == trim_start_matches(s, pat),
        !(pat.len() <= trim_start_matches(s, pat).len() && trim_start_matches(s, pat).take(
            pat.len() as int,
        ) == pat),
    decreases s.len(),
{
    if pat.len() <= s.len() && s.take(pat.len() as int) == pat {
        lemma_trim_start_matches_idempotent(s.skip(pat.len() as int), pat);
    }
}

// ---------------------------------------------------------------------------
// File names and extensions
// ---------------------------------------------------------------------------

/// The number of characters of `name` before its last dot, if it has one.
pub open spec fn last_dot(name: Seq<char>) -> Option<nat>
    decreases name.len(),
{
    if name.len() == 0 {
        None
    } else if name.last() == '.' {
        Some((name.len() - 1) as nat)
    } else {
        last_dot(name.drop_last())
    }
}

/// The extension of `p` (`Path::extension`): what follows the last dot of its
/// file name, unless that dot is the name's first character.
pub open spec fn extension(os: Os, p: Seq<char>) -> Option<Seq<char>> {
    match file_name(os, p) {
        Some(name) => match last_dot(name) {
            Some(k) => if k == 0 {
                None
            } else {
                Some(name.skip(k as int + 1))
            },
            None => None,
        },
        None => None,
    }
}

pub open spec fn jar_extension() -> Seq<char> {
    seq!['j', 'a', 'r']
}

/// The extension of `p` (`Path::extension`).
pub fn extension_of(os: Os, p: &str) -> (r: Option<Vec<char>>)
    ensures
        r matches Some(e) ==> extension(os, p@) == Some(e@),
        r is None ==> extension(os, p@) is None,
{
    let cs = chars_of(p);
    match file_name_bounds(os, &cs) {
        Some((a, b)) => {
            let ghost name = cs@.subrange(a as int, b as int);
            let mut d = b;
            while d > a && cs[d - 1] != '.'
                invariant
                    a <= d <= b <= cs@.len(),
                    name == cs@.subrange(a as int, b as int),
                    last_dot(name) == last_dot(cs@.subrange(a as int, d as int)),
                decreases d,
            {
                assert(cs@.subrange(a as int, d as int).drop_last() =~= cs@.subrange(
                    a as int,
                    d - 1,
                ));
                d = d - 1;
            }
            if d == a {
                assert(cs@.subrange(a as int, d as int) =~= Seq::<char>::empty());
                return None;
            }
            assert(last_dot(name) == Some((d - 1 - a) as nat));
            if d - 1 == a {
                return None;
            }
            let v = slice_chars(&cs, d, b);
            assert(v@ =~= name.skip(d - a));
            Some(v)
        },
        None => None,
    }
}

/// Whether `p` names a `.jar` file.
pub fn is_jar(os: Os, p: &str) -> (b: bool)
    ensures
        b == (extension(os, p@) == Some(jar_extension())),
{
    match extension_of(os, p) {
        Some(e) => {
            let r = e.len() == 3 && e[0] == 'j' && e[1] == 'a' && e[2] == 'r';
            assert(r == (e@ == jar_extension())) by {
                if e@.len() == 3 && e@[0] == 'j' && e@[1] == 'a' && e@[2] == 'r' {
                    assert(e@ =~= jar_extension());
                }
            }
            r
        },
        None => false,
    }
}

/// A relative version id stays relative with `-natives` after it.
proof fn lemma_natives_name_relative(os: Os, v: Seq<char>)
    requires
        is_relative_part(os, v),
    ensures
        is_relative_part(os, v + "-natives"@),
{
    reveal_strlit("-natives");
    let n = v + "-natives"@;
    assert(n.len() == v.len() + 8);
    if v.len() == 0 {
        assert(n =~= "-natives"@);
    } else {
        assert(n[0] == v[0]);
        if v.len() == 1 {
            assert(n[1] == '-');
        } else {
            assert(n[1] == v[1]);
        }
    }
}

// ---------------------------------------------------------------------------
// The game directory
// ---------------------------------------------------------------------------

/// The game directory that the launcher uses.
pub open spec fn default_base_dir() -> Seq<char> {
    "D:\\Desktop\\.minecraft"@
}

/// The text of an optional string.
pub open spec fn opt_view(o: Option<String>) -> Option<Seq<char>> {
    match o {
        Some(s) => Some(s@),
        None => None,
    }
}

/// A file met while walking a directory tree: its path, and the canonical form
/// of that path when the file system could give one.
pub struct FoundFile {
    pub path: String,
    pub resolved: Option<String>,
}

/// The classpath entries that the files `found` give, in order: the absolute
/// form of each one whose extension is `jar`.
pub open spec fn jar_classpath(os: Os, found: Seq<FoundFile>) -> Seq<Seq<char>>
    decreases found.len(),
{
    if found.len() == 0 {
        Seq::empty()
    } else {
        let prev = jar_classpath(os, found.drop_last());
        let f = found.last();
        if extension(os, f.path@) == Some(jar_extension()) {
            prev.push(absolute_form(opt_view(f.resolved)))
        } else {
            prev
        }
    }
}

/// The directories of a game installation.
pub struct MinecraftPaths {
    pub os: Os,
    pub base_dir: String,
    pub versions_dir: String,
    pub libraries_dir: String,
    pub assets_dir: String,
}

impl MinecraftPaths {
    /// The directory of the version `version_id`.
    pub open spec fn version_dir(&self, version_id: Seq<char>) -> Seq<char> {
        join_path(self.os, self.versions_dir@, version_id)
    }

    /// The directory the native libraries of `version_id` are unpacked into.
    pub open spec fn natives_dir(&self, version_id: Seq<char>) -> Seq<char> {
        join_path(self.os, self.version_dir(version_id), version_id + "-natives"@)
    }

    /// Joining onto the versions directory and onto the directory of
    /// `version_id` goes by text: neither is a verbatim (`\\?\`) path, on
    /// which joining rewrites `.` and `..` components.
    pub open spec fn joins_by_text(&self, version_id: Seq<char>) -> bool {
        !is_verbatim(self.os, self.versions_dir@) && !is_verbatim(
            self.os,
            self.version_dir(version_id),
        )
    }

    /// The directory of a version lies in the versions directory, and the
    /// natives directory of a version lies in the version's directory, for
    /// every version id that is a relative path, where the directories are
    /// joined by text.
    pub proof fn lemma_version_dirs_nest(&self, version_id: Seq<char>)
        requires
            is_relative_part(self.os, version_id),
            self.joins_by_text(version_id),
        ensures
            self.versions_dir@.is_prefix_of(self.version_dir(version_id)),
            self.version_dir(version_id).is_prefix_of(self.natives_dir(version_id)),
            (version_id + "-natives"@).is_suffix_of(self.natives_dir(version_id)),
    {
        lemma_join_relative(self.os, self.versions_dir@, version_id);
        lemma_natives_name_relative(self.os, version_id);
        lemma_join_relative(self.os, self.version_dir(version_id), version_id + "-natives"@);
    }

    /// Two different version ids never share a natives directory, for every
    /// pair of version ids that are relative paths, where the directories are
    /// joined by text.
    pub proof fn lemma_natives_dirs_distinct(&self, a: Seq<char>, b: Seq<char>)
        requires
            is_relative_part(self.os, a),
            is_relative_part(self.os, b),
            self.joins_by_text(a),
            self.joins_by_text(b),
            a != b,
        ensures
            self.natives_dir(a) != self.natives_dir(b),
    {
        let os = self.os;
        let x = self.versions_dir@;
        lemma_join_relative(os, x, a);
        lemma_join_relative(os, x, b);
        lemma_natives_name_relative(os, a);
        lemma_natives_name_relative(os, b);
        let na = a + "-natives"@;
        let nb = b + "-natives"@;
        lemma_join_relative(os, self.version_dir(a), na);
        lemma_join_relative(os, self.version_dir(b), nb);
        let g = join_gap(os, x);
        let ga = join_gap(os, self.version_dir(a));
        let gb = join_gap(os, self.version_dir(b));
        let da = self.natives_dir(a);
        let db = self.natives_dir(b);
        assert(da.len() == x.len() + g.len() + 2 * a.len() + ga.len() + 8) by {
            reveal_strlit("-natives");
        }
        assert(db.len() == x.len() + g.len() + 2 * b.len() + gb.len() + 8) by {
            reveal_strlit("-natives");
        }
        if da == db {
            assert(a.len() == b.len());
            let k = x.len() + g.len();
            assert(self.version_dir(a) =~= x + g + a);
            assert(self.version_dir(b) =~= x + g + b);
            assert(da.subrange(k as int, k + a.len() as int) =~= a) by {
                assert(da =~= x + g + a + ga + na);
            }
            assert(db.subrange(k as int, k + b.len() as int) =~= b) by {
                assert(db =~= x + g + b + gb + nb);
            }
        }
    }

    /// The paths of the installation in the default game directory.
    pub fn new(os: Os) -> (p: MinecraftPaths)
        ensures
            p.os == os,
            p.base_dir@ == default_base_dir(),
            p.versions_dir@ == join_path(os, default_base_dir(), "version"@),
            p.libraries_dir@ == join_path(os, default_base_dir(), "libraries"@),
            p.assets_dir@ == join_path(os, default_base_dir(), "assets"@),
    {
        let base_dir = String::from_str("D:\\Desktop\\.minecraft");
        MinecraftPaths {
            os,
            versions_dir: join(os, base_dir.as_str(), "version"),
            libraries_dir: join(os, base_dir.as_str(), "libraries"),
            assets_dir: join(os, base_dir.as_str(), "assets"),
            base_dir,
        }
    }

    /// The directory of the version `version_id`.
    pub fn get_version_dir(&self, version_id: &str) -> (d: String)
        ensures
            d@ == self.version_dir(version_id@),
    {
        join(self.os, self.versions_dir.as_str(), version_id)
    }

    /// The directory the native libraries of `version_id` are unpacked into:
    /// `<version dir>/<version_id>-natives`.
    pub fn get_natives_dir(&self, version_id: &str) -> (d: String)
        ensures
            d@ == self.natives_dir(version_id@),
    {
        let dir = self.get_version_dir(version_id);
        let name = concat_str(version_id, "-natives");
        join(self.os, dir.as_str(), name.as_str())
    }

    /// The logging configuration of the version `version_id`:
    /// `<version dir>/client-1.12.xml`.
    pub fn get_log_config_path(&self, version_id: &str) -> (c: String)
        ensures
            c@ == join_path(self.os, self.version_dir(version_id@), "client-1.12.xml"@),
    {
        let dir = self.get_version_dir(version_id);
        join(self.os, dir.as_str(), "client-1.12.xml")
    }

    /// The absolute form of a path, given what the file system resolved it to
    /// (`None` when it could not): the resolved path without its leading
    /// `\\?\` prefixes, or the empty text.
    pub fn get_absolute_path(&self, resolved: Option<String>) -> (a: String)
        ensures
            a@ == absolute_form(opt_view(resolved)),
    {
        let prefix = verbatim_prefix_exec();
        match resolved {
            Some(r) => trim_start_matches_exec(r.as_str(), &prefix),
            None => {
                let e = String::new();
                trim_start_matches_exec(e.as_str(), &prefix)
            },
        }
    }

    /// The classpath entries among the files found under the libraries
    /// directory: the absolute form of every `.jar` file, in the order found.
    pub fn get_libraries_classpath(&self, found: &Vec<FoundFile>) -> (cp: Vec<String>)
        ensures
            cp@.map_values(|c: String| c@) == jar_classpath(self.os, found@),
    {
        let mut cp: Vec<String> = Vec::new();
        let mut i: usize = 0;
        while i < found.len()
            invariant
                i <= found@.len(),
                cp@.map_values(|c: String| c@) == jar_classpath(self.os, found@.take(i as int)),
            decreases found@.len() - i,
        {
            let f = &found[i];
            assert(found@.take(i + 1).drop_last() =~= found@.take(i as int));
            assert(found@.take(i + 1).last() == found@[i as int]);
            if is_jar(self.os, f.path.as_str()) {
                let r = match &f.resolved {
                    Some(r) => Some(r.clone()),
                    None => None,
                };
                let a = self.get_absolute_path(r);
                cp.push(a);
            }
            i = i + 1;
            assert(cp@.map_values(|c: String| c@) =~= jar_classpath(
                self.os,
                found@.take(i as int),
            ));
        }
        assert(found@.take(found@.len() as int) =~= found@);
        cp
    }
}

/// The client jar of the version `version_id` in the default game directory:
/// `<version dir>/<version_id>.jar`. The launcher shows it by its absolute
/// form (`MinecraftPaths::get_absolute_path` of what the file system
/// resolves it to).
pub fn get_game_jar_path(os: Os, version_id: &str) -> (j: String)
    ensures
        j@ == join_path(
            os,
            join_path(os, join_path(os, default_base_dir(), "version"@), version_id@),
            version_id@ + ".jar"@,
        ),
{
    let paths = MinecraftPaths::new(os);
    let dir = paths.get_version_dir(version_id);
    let name = concat_str(version_id, ".jar");
    join(os, dir.as_str(), name.as_str())
}


// ---------------------------------------------------------------------------
// Unpacking native libraries
// ---------------------------------------------------------------------------

/// The directory the natives archive of `version_id` is unpacked into:
/// `.minecraft/version/<version_id>/<version_id>-natives`.
pub open spec fn natives_extract_dir(os: Os, version_id: Seq<char>) -> Seq<char> {
    join_path(
        os,
        join_path(os, join_path(os, ".minecraft"@, "version"@), version_id),
        version_id + "-natives"@,
    )
}

/// The versions directory of the game directory `.minecraft`:
/// `.minecraft`, the main separator, `version`.
proof fn lemma_minecraft_versions(os: Os)
    ensures
        join_path(os, ".minecraft"@, "version"@) == ".minecraft"@ + seq![os.spec_main_separator()]
            + "version"@,
{
    reveal_strlit(".minecraft");
    reveal_strlit("version");
    let m = ".minecraft"@;
    lemma_plain_part_relative(os, m);
    lemma_plain_part_relative(os, "version"@);
    lemma_join_relative(os, m, "version"@);
    lemma_gap_after_name(os, m);
}

/// A path beginning `.m` has no prefix, no root and no leading `.`
/// component, and is not verbatim.
proof fn lemma_dot_m_path(os: Os, p: Seq<char>)
    requires
        p.len() >= 2,
        p[0] == '.',
        p[1] == 'm',
    ensures
        path_prefix(os, p) is None,
        !has_physical_root(os, p),
        !starts_with_cur_dir(os, p),
        !is_verbatim(os, p),
        p.len() >= 3 ==> is_relative_part(os, p),
{
    lemma_plain_part_relative(os, p);
}

/// The natives of a version id `v` without separators that is a relative
/// path are unpacked into `.minecraft`, `version`, `v` and `v-natives`, one
/// after the other with the main separator of the system between them, on
/// every system.
pub proof fn law_natives_extract_dir_layout(os: Os, v: Seq<char>)
    requires
        v.len() > 0,
        is_relative_part(os, v),
        forall|i: int| 0 <= i < v.len() ==> !os.spec_is_separator(#[trigger] v[i]),
    ensures
        natives_extract_dir(os, v) == ".minecraft"@ + seq![os.spec_main_separator()] + "version"@
            + seq![os.spec_main_separator()] + v + seq![os.spec_main_separator()] + v
            + "-natives"@,
{
    reveal_strlit(".minecraft");
    reveal_strlit("version");
    let s = seq![os.spec_main_separator()];
    let mv = ".minecraft"@ + s + "version"@;
    lemma_minecraft_versions(os);
    lemma_dot_m_path(os, mv);
    lemma_join_relative(os, mv, v);
    lemma_gap_after_name(os, mv);
    let d = mv + s + v;
    assert(join_path(os, mv, v) == d);
    lemma_dot_m_path(os, d);
    assert(d.last() == v.last());
    lemma_gap_after_name(os, d);
    lemma_natives_name_relative(os, v);
    lemma_join_relative(os, d, v + "-natives"@);
    assert(natives_extract_dir(os, v) =~= mv + s + v + s + (v + "-natives"@));
}

/// The natives directory of a version id `v` without separators that is a
/// relative path other than `.` has `v-natives` as its file name and the
/// directory of the version, `.minecraft`, `version` and `v` joined, as its
/// parent, on every system.
pub proof fn law_natives_extract_dir_parent_and_name(os: Os, v: Seq<char>)
    requires
        v.len() > 0,
        v != seq!['.'],
        is_relative_part(os, v),
        forall|i: int| 0 <= i < v.len() ==> !os.spec_is_separator(#[trigger] v[i]),
    ensures
        file_name(os, natives_extract_dir(os, v)) == Some(v + "-natives"@),
        parent_path(os, natives_extract_dir(os, v)) == Some(
            join_path(os, join_path(os, ".minecraft"@, "version"@), v),
        ),
{
    reveal_strlit(".minecraft");
    reveal_strlit("version");
    reveal_strlit("-natives");
    law_natives_extract_dir_layout(os, v);
    let s = seq![os.spec_main_separator()];
    let mv = ".minecraft"@ + s + "version"@;
    let y = v + "-natives"@;
    lemma_minecraft_versions(os);
    lemma_dot_m_path(os, mv);
    lemma_join_relative(os, mv, v);
    lemma_gap_after_name(os, mv);
    assert(y.len() == v.len() + 8);
    assert forall|i: int| 0 <= i < y.len() implies !os.spec_is_separator(#[trigger] y[i]) by {
        if i < v.len() {
            assert(y[i] == v[i]);
        } else {
            assert(y[i] == "-natives"@[i - v.len()]);
        }
    }
    assert(y != seq!['.']);
    assert(y != seq!['.', '.']);
    let p = mv + s + v + s + y;
    assert(natives_extract_dir(os, v) =~= p);
    lemma_dot_m_path(os, p);
    lemma_last_two_components(os, mv, v, y);
}

/// The directory the natives archive of `version_id` is unpacked into.
pub fn natives_extract_dir_of(os: Os, version_id: &str) -> (d: String)
    ensures
        d@ == natives_extract_dir(os, version_id@),
{
    let v = join(os, ".minecraft", "version");
    let dir = join(os, v.as_str(), version_id);
    let name = concat_str(version_id, "-natives");
    join(os, dir.as_str(), name.as_str())
}

/// What unpacking does with one entry of an archive.
pub enum EntryAction {
    /// Create this directory.
    CreateDir(String),
    /// Write the entry's content to this file.
    WriteFile(String),
}

/// An action as whether it creates a directory, and the path it acts on.
pub open spec fn action_view(a: EntryAction) -> (bool, Seq<char>) {
    match a {
        EntryAction::CreateDir(p) => (true, p@),
        EntryAction::WriteFile(p) => (false, p@),
    }
}

/// What unpacking into `dir` does with the entry `name`: it creates a
/// directory when `name` ends with `/`, and writes a file otherwise; either
/// way at `dir` joined with `name`.
pub open spec fn planned_action(os: Os, dir: Seq<char>, name: Seq<char>) -> (bool, Seq<char>) {
    (name.len() > 0 && name.last() == '/', join_path(os, dir, name))
}

/// What unpacking into `dir` does with the archive entry `name`: an entry
/// whose name ends with `/` is a directory to create, any other a file to
/// write; either way at `dir` joined with `name`.
pub fn plan_entry(os: Os, dir: &str, name: &str) -> (a: EntryAction)
    ensures
        action_view(a) == planned_action(os, dir@, name@),
{
    let out = join(os, dir, name);
    if ends_with_char(name, '/') {
        EntryAction::CreateDir(out)
    } else {
        EntryAction::WriteFile(out)
    }
}

} // verus!
