use vstd::prelude::*;

use crate::platform::Os;
use crate::path_syntax::{
    grandparent_path, is_verbatim, join, join_gap, join_path, lemma_gap_after_name,
    lemma_join_relative, lemma_plain_part_relative, lemma_verbatim_start, parent_of,
};
use crate::paths::opt_view;
use crate::text::{
    chars_of, concat_str, contains_str, contains_text, lines, lines_of, occurs_at, second_piece,
    second_piece_of, string_from_chars, texts, trim_char, trim_char_str, trim_str, trim_ws,
    lemma_text_less_asymmetric, lemma_text_less_irreflexive, lemma_text_less_total,
    lemma_text_less_transitive, string_less, text_less,
};

verus! {

// ---------------------------------------------------------------------------
// The list of Java installations
// ---------------------------------------------------------------------------

/// Each item comes before the next in the order of `String`, so none occurs
/// twice.
pub open spec fn strictly_sorted(s: Seq<Seq<char>>) -> bool {
    forall|i: int, j: int| 0 <= i < j < s.len() ==> text_less(#[trigger] s[i], #[trigger] s[j])
}

/// The Java homes found: `JAVA_HOME` first, when it is set and exists, then
/// those the system search gave.
pub open spec fn found_java_homes(java_home: Option<String>, system_paths: Seq<String>) -> Seq<
    Seq<char>,
> {
    match java_home {
        Some(h) => seq![h@] + texts(system_paths),
        None => texts(system_paths),
    }
}

proof fn lemma_push_to_set<A>(s: Seq<A>, a: A)
    ensures
        s.push(a).to_set() == s.to_set().insert(a),
{
    assert forall|e: A| s.push(a).to_set().contains(e) implies s.to_set().insert(a).contains(e) by {
        let i = choose|i: int| 0 <= i < s.push(a).len() && s.push(a)[i] == e;
        if i < s.len() {
            assert(s[i] == e);
        }
    }
    assert forall|e: A| s.to_set().insert(a).contains(e) implies s.push(a).to_set().contains(e) by {
        if e == a {
            assert(s.push(a)[s.len() as int] == e);
        } else {
            let i = choose|i: int| 0 <= i < s.len() && s[i] == e;
            assert(s.push(a)[i] == e);
        }
    }
    assert(s.push(a).to_set() =~= s.to_set().insert(a));
}

/// The Java homes found, sorted and with each one only once
/// (`sort` then `dedup` on the merged list).
pub fn merge_java_paths(java_home: Option<String>, system_paths: Vec<String>) -> (r: Vec<String>)
    ensures
        strictly_sorted(texts(r@)),
        texts(r@).to_set() == found_java_homes(java_home, system_paths@).to_set(),
{
    let mut all: Vec<String> = Vec::new();
    match java_home {
        Some(h) => all.push(h),
        None => {},
    }
    let mut rest = system_paths;
    all.append(&mut rest);
    assert(texts(all@) =~= found_java_homes(java_home, system_paths@));
    let mut out: Vec<String> = Vec::new();
    let mut k: usize = 0;
    while k < all.len()
        invariant
            k <= all@.len(),
            strictly_sorted(texts(out@)),
            texts(out@).to_set() == texts(all@).take(k as int).to_set(),
        decreases all@.len() - k,
    {
        let x = &all[k];
        let mut j: usize = 0;
        while j < out.len() && string_less(out[j].as_str(), x.as_str())
            invariant
                j <= out@.len(),
                forall|m: int| 0 <= m < j ==> text_less(#[trigger] texts(out@)[m], x@),
            decreases out@.len() - j,
        {
            j = j + 1;
        }
        let ghost g = texts(out@);
        assert(texts(all@).take(k + 1) =~= texts(all@).take(k as int).push(x@));
        proof {
            lemma_push_to_set(texts(all@).take(k as int), x@);
        }
        if j < out.len() && out[j] == *x {
            assert(g[j as int] == x@);
            assert(g.to_set().insert(x@) =~= g.to_set());
        } else {
            proof {
                if j < g.len() {
                    lemma_text_less_total(g[j as int], x@);
                }
                assert forall|m: int| j <= m < g.len() implies text_less(x@, #[trigger] g[m]) by {
                    if m > j {
                        lemma_text_less_transitive(x@, g[j as int], g[m]);
                    }
                }
            }
            out.insert(j, x.clone());
            assert(texts(out@) =~= g.insert(j as int, x@));
            proof {
                let h = g.insert(j as int, x@);
                assert forall|a: int, b: int| 0 <= a < b < h.len() implies text_less(
                    #[trigger] h[a],
                    #[trigger] h[b],
                ) by {
                    if a < j && b < j {
                    } else if a < j && b == j {
                    } else if a < j && b > j {
                        assert(h[b] == g[b - 1]);
                        lemma_text_less_transitive(h[a], x@, h[b]);
                    } else if a == j {
                        assert(h[b] == g[b - 1]);
                    } else {
                        assert(h[a] == g[a - 1]);
                        assert(h[b] == g[b - 1]);
                    }
                }
                assert(h.to_set() =~= g.to_set().insert(x@)) by {
                    assert forall|e: Seq<char>| h.to_set().contains(e) implies g.to_set().insert(
                        x@,
                    ).contains(e) by {
                        let i = choose|i: int| 0 <= i < h.len() && h[i] == e;
                        if i < j {
                            assert(g[i] == e);
                        } else if i > j {
                            assert(g[i - 1] == e);
                        }
                    }
                    assert forall|e: Seq<char>| g.to_set().insert(x@).contains(e) implies h.to_set().contains(
                        e,
                    ) by {
                        if e == x@ {
                            assert(h[j as int] == e);
                        } else {
                            let i = choose|i: int| 0 <= i < g.len() && g[i] == e;
                            if i < j {
                                assert(h[i] == e);
                            } else {
                                assert(h[i + 1] == e);
                            }
                        }
                    }
                }
            }
        }
        k = k + 1;
    }
    assert(texts(all@).take(all@.len() as int) =~= texts(all@));
    out
}


/// The merged list depends only on which homes were found: two sorted lists
/// without repeats that hold the same homes are the same list. So the order
/// in which homes are found, and how often each is found, change nothing, and
/// merging a merged list gives it back.
pub proof fn lemma_sorted_lists_with_same_items_are_equal(a: Seq<Seq<char>>, b: Seq<Seq<char>>)
    requires
        strictly_sorted(a),
        strictly_sorted(b),
        a.to_set() == b.to_set(),
    ensures
        a == b,
    decreases a.len(),
{
    if a.len() == 0 {
        if b.len() > 0 {
            assert(b.to_set().contains(b[0]));
        }
        assert(a =~= b);
    } else {
        assert(a.to_set().contains(a[0]));
        assert(b.len() > 0);
        let j = choose|j: int| 0 <= j < b.len() && b[j] == a[0];
        assert(b.to_set().contains(b[0]));
        let i = choose|i: int| 0 <= i < a.len() && a[i] == b[0];
        if i > 0 && j > 0 {
            assert(text_less(a[0], a[i]));
            assert(text_less(b[0], b[j]));
            lemma_text_less_asymmetric(a[0], b[0]);
        } else if i > 0 {
            assert(a[0] == b[0]);
        }
        assert(a[0] == b[0]);
        let ta = a.drop_first();
        let tb = b.drop_first();
        assert(strictly_sorted(ta)) by {
            assert forall|x: int, y: int| 0 <= x < y < ta.len() implies text_less(
                #[trigger] ta[x],
                #[trigger] ta[y],
            ) by {
                assert(ta[x] == a[x + 1] && ta[y] == a[y + 1]);
            }
        }
        assert(strictly_sorted(tb)) by {
            assert forall|x: int, y: int| 0 <= x < y < tb.len() implies text_less(
                #[trigger] tb[x],
                #[trigger] tb[y],
            ) by {
                assert(tb[x] == b[x + 1] && tb[y] == b[y + 1]);
            }
        }
        assert(ta.to_set() =~= tb.to_set()) by {
            assert forall|e: Seq<char>| ta.to_set().contains(e) implies tb.to_set().contains(e) by {
                let x = choose|x: int| 0 <= x < ta.len() && ta[x] == e;
                assert(a[x + 1] == e);
                assert(a.to_set().contains(e));
                let y = choose|y: int| 0 <= y < b.len() && b[y] == e;
                if y == 0 {
                    assert(text_less(a[0], a[x + 1]));
                    lemma_text_less_irreflexive(e);
                }
                assert(tb[y - 1] == e);
            }
            assert forall|e: Seq<char>| tb.to_set().contains(e) implies ta.to_set().contains(e) by {
                let x = choose|x: int| 0 <= x < tb.len() && tb[x] == e;
                assert(b[x + 1] == e);
                assert(b.to_set().contains(e));
                let y = choose|y: int| 0 <= y < a.len() && a[y] == e;
                if y == 0 {
                    assert(text_less(b[0], b[x + 1]));
                    lemma_text_less_irreflexive(e);
                }
                assert(ta[y - 1] == e);
            }
        }
        lemma_sorted_lists_with_same_items_are_equal(ta, tb);
        assert(a =~= seq![a[0]] + ta);
        assert(b =~= seq![b[0]] + tb);
    }
}


// ---------------------------------------------------------------------------
// Choosing the Java executable
// ---------------------------------------------------------------------------

/// The executables tried in a Java home, in order.
pub open spec fn java_candidates(os: Os, home: Seq<char>) -> Seq<Seq<char>> {
    if os == Os::Windows {
        seq![
            home + "\\bin\\javaw.exe"@,
            home + "\\javaw.exe"@,
            home + "\\javapath\\javaw.exe"@,
        ]
    } else {
        seq![home + "/bin/java"@, home + "/java"@]
    }
}

/// The executables tried in the Java homes `homes`, home by home.
pub open spec fn all_java_candidates(os: Os, homes: Seq<Seq<char>>) -> Seq<Seq<char>>
    decreases homes.len(),
{
    if homes.len() == 0 {
        Seq::empty()
    } else {
        all_java_candidates(os, homes.drop_last()) + java_candidates(os, homes.last())
    }
}

/// The executables tried in the Java home `home`.
pub fn java_candidates_of(os: Os, home: &str) -> (v: Vec<String>)
    ensures
        texts(v@) == java_candidates(os, home@),
{
    let mut v: Vec<String> = Vec::new();
    if os == Os::Windows {
        v.push(concat_str(home, "\\bin\\javaw.exe"));
        v.push(concat_str(home, "\\javaw.exe"));
        v.push(concat_str(home, "\\javapath\\javaw.exe"));
    } else {
        v.push(concat_str(home, "/bin/java"));
        v.push(concat_str(home, "/java"));
    }
    assert(texts(v@) =~= java_candidates(os, home@));
    v
}

/// What `java -version` printed names the wanted version.
pub open spec fn names_version(output: Option<Seq<char>>, wanted: Seq<char>) -> bool {
    match output {
        Some(o) => contains_text(o, wanted),
        None => false,
    }
}

/// The executable chosen: the first candidate whose output names the wanted
/// version (`outputs[i]` being what probing `candidates[i]` gave, `None` when
/// it could not be run), or the empty text when none does.
pub open spec fn chosen_java(
    candidates: Seq<Seq<char>>,
    outputs: Seq<Option<Seq<char>>>,
    wanted: Seq<char>,
) -> Seq<char>
    decreases candidates.len(),
{
    if candidates.len() == 0 || outputs.len() == 0 {
        Seq::empty()
    } else if names_version(outputs[0], wanted) {
        candidates[0]
    } else {
        chosen_java(candidates.drop_first(), outputs.drop_first(), wanted)
    }
}

/// The choice is settled once an output names the version, or once every
/// candidate has been tried.
pub open spec fn choice_settled(
    candidates: Seq<Seq<char>>,
    outputs: Seq<Option<Seq<char>>>,
    wanted: Seq<char>,
) -> bool {
    (outputs.len() > 0 && names_version(outputs.last(), wanted)) || outputs.len()
        >= candidates.len()
}

proof fn lemma_chosen_java_skip(
    c: Seq<Seq<char>>,
    o: Seq<Option<Seq<char>>>,
    w: Seq<char>,
    k: int,
)
    requires
        0 <= k <= o.len(),
        k <= c.len(),
        forall|i: int| 0 <= i < k ==> !names_version(#[trigger] o[i], w),
    ensures
        chosen_java(c, o, w) == chosen_java(c.skip(k), o.skip(k), w),
    decreases k,
{
    if k > 0 {
        assert(!names_version(o[0], w));
        assert(c.len() > 0 && o.len() > 0);
        let c1 = c.drop_first();
        let o1 = o.drop_first();
        assert forall|i: int| 0 <= i < k - 1 implies !names_version(#[trigger] o1[i], w) by {
            assert(o1[i] == o[i + 1]);
        }
        lemma_chosen_java_skip(c1, o1, w, k - 1);
        assert(c1.skip(k - 1) =~= c.skip(k));
        assert(o1.skip(k - 1) =~= o.skip(k));
    } else {
        assert(c.skip(0) =~= c);
        assert(o.skip(0) =~= o);
    }
}

/// What a probe printed names the wanted version exactly when the version
/// stands in it somewhere as a run of characters, whatever else the output
/// says; a probe that could not be run names no version.
pub proof fn law_names_version_is_substring(output: Option<Seq<char>>, wanted: Seq<char>)
    ensures
        names_version(output, wanted) <==> (output matches Some(o) && exists|i: int|
            0 <= i && i + wanted.len() <= o.len() && #[trigger] o.subrange(i, i + wanted.len())
                == wanted),
{
    if let Some(o) = output {
        if contains_text(o, wanted) {
            let i = choose|i: int| occurs_at(o, wanted, i);
            assert(o.subrange(i, i + wanted.len()) == wanted);
        }
        if exists|i: int|
            0 <= i && i + wanted.len() <= o.len() && #[trigger] o.subrange(i, i + wanted.len())
                == wanted {
            let i = choose|i: int|
                0 <= i && i + wanted.len() <= o.len() && #[trigger] o.subrange(
                    i,
                    i + wanted.len(),
                ) == wanted;
            assert(occurs_at(o, wanted, i));
        }
    }
}

/// The executable chosen is the candidate `k` when its output is the first
/// that names the wanted version.
pub proof fn law_chosen_java_first_hit(
    candidates: Seq<Seq<char>>,
    outputs: Seq<Option<Seq<char>>>,
    wanted: Seq<char>,
    k: int,
)
    requires
        0 <= k < candidates.len(),
        k < outputs.len(),
        names_version(outputs[k], wanted),
        forall|j: int| 0 <= j < k ==> !names_version(#[trigger] outputs[j], wanted),
    ensures
        chosen_java(candidates, outputs, wanted) == candidates[k],
{
    lemma_chosen_java_skip(candidates, outputs, wanted, k);
    assert(candidates.skip(k)[0] == candidates[k]);
    assert(outputs.skip(k)[0] == outputs[k]);
}

/// No executable is chosen (the empty text) when no output of the probed
/// candidates names the wanted version.
pub proof fn law_chosen_java_none(
    candidates: Seq<Seq<char>>,
    outputs: Seq<Option<Seq<char>>>,
    wanted: Seq<char>,
)
    requires
        forall|j: int|
            0 <= j < outputs.len() && j < candidates.len() ==> !names_version(
                #[trigger] outputs[j],
                wanted,
            ),
    ensures
        chosen_java(candidates, outputs, wanted) == Seq::<char>::empty(),
    decreases candidates.len(),
{
    if candidates.len() > 0 && outputs.len() > 0 {
        assert(!names_version(outputs[0], wanted));
        let c1 = candidates.drop_first();
        let o1 = outputs.drop_first();
        assert forall|j: int| 0 <= j < o1.len() && j < c1.len() implies !names_version(
            #[trigger] o1[j],
            wanted,
        ) by {
            assert(o1[j] == outputs[j + 1]);
        }
        law_chosen_java_none(c1, o1, wanted);
    }
}

/// The next step of the choice of a Java executable.
pub enum JavaStep {
    /// Run this executable with `-version` and report what it printed.
    Probe(String),
    /// The choice is made: this executable, or the empty text.
    Finished(String),
}

/// The choice of the Java executable that runs the game: the candidates of
/// each Java home are probed in order until one reports the wanted version.
pub struct JavaSelector {
    candidates: Vec<String>,
    wanted: String,
    next: usize,
    found: bool,
    observed: Ghost<Seq<Option<Seq<char>>>>,
}

impl JavaSelector {
    #[verifier::type_invariant]
    spec fn inv(self) -> bool {
        &&& self.next <= self.candidates@.len()
        &&& self.found ==> self.next < self.candidates@.len()
        &&& self.observed@.len() == self.next + if self.found {
            1int
        } else {
            0int
        }
        &&& forall|i: int| 0 <= i < self.next ==> !names_version(#[trigger] self.observed@[i], self.wanted@)
        &&& self.found ==> names_version(self.observed@[self.next as int], self.wanted@)
    }

    /// The executables to try, in order.
    pub closed spec fn candidate_list(&self) -> Seq<Seq<char>> {
        texts(self.candidates@)
    }

    /// The version the executable must report.
    pub closed spec fn wanted_version(&self) -> Seq<char> {
        self.wanted@
    }

    /// What each probe so far gave, in order.
    pub closed spec fn outputs(&self) -> Seq<Option<Seq<char>>> {
        self.observed@
    }

    /// A new choice among the executables of the Java homes `homes`, for the
    /// version `java_version`.
    pub fn new(os: Os, homes: &Vec<String>, java_version: &str) -> (s: JavaSelector)
        ensures
            s.candidate_list() == all_java_candidates(os, texts(homes@)),
            s.wanted_version() == java_version@,
            s.outputs() == Seq::<Option<Seq<char>>>::empty(),
    {
        let mut candidates: Vec<String> = Vec::new();
        let mut i: usize = 0;
        while i < homes.len()
            invariant
                i <= homes@.len(),
                texts(candidates@) == all_java_candidates(os, texts(homes@).take(i as int)),
            decreases homes@.len() - i,
        {
            let mut more = java_candidates_of(os, homes[i].as_str());
            let ghost before = candidates@;
            candidates.append(&mut more);
            assert(texts(homes@).take(i + 1).drop_last() =~= texts(homes@).take(i as int));
            assert(texts(candidates@) =~= texts(before) + java_candidates(os, homes@[i as int]@));
            i = i + 1;
        }
        assert(texts(homes@).take(homes@.len() as int) =~= texts(homes@));
        JavaSelector {
            candidates,
            wanted: String::from_str(java_version),
            next: 0,
            found: false,
            observed: Ghost(Seq::empty()),
        }
    }

    /// What to do next: probe the next candidate, or stop with the choice
    /// made, which is the first candidate whose output named the version, or
    /// the empty text when none did.
    pub fn next_step(&self) -> (step: JavaStep)
        ensures
            match step {
                JavaStep::Probe(c) => !choice_settled(
                    self.candidate_list(),
                    self.outputs(),
                    self.wanted_version(),
                ) && c@ == self.candidate_list()[self.outputs().len() as int],
                JavaStep::Finished(p) => choice_settled(
                    self.candidate_list(),
                    self.outputs(),
                    self.wanted_version(),
                ) && p@ == chosen_java(
                    self.candidate_list(),
                    self.outputs(),
                    self.wanted_version(),
                ),
            },
    {
        proof {
            use_type_invariant(self);
            lemma_chosen_java_skip(
                self.candidate_list(),
                self.outputs(),
                self.wanted_version(),
                self.next as int,
            );
        }
        if self.found {
            let c = self.candidates[self.next].clone();
            JavaStep::Finished(c)
        } else if self.next < self.candidates.len() {
            proof {
                if self.observed@.len() > 0 {
                    assert(!names_version(self.observed@[self.next - 1], self.wanted@));
                }
            }
            JavaStep::Probe(self.candidates[self.next].clone())
        } else {
            assert(texts(self.candidates@).skip(self.next as int) =~= Seq::<Seq<char>>::empty());
            JavaStep::Finished(String::new())
        }
    }

    /// Reports what probing the candidate of the last `Probe` step gave
    /// (`None` when it could not be run).
    pub fn observe(&mut self, output: Option<String>)
        requires
            !choice_settled(old(self).candidate_list(), old(self).outputs(), old(self).wanted_version()),
        ensures
            final(self).candidate_list() == old(self).candidate_list(),
            final(self).wanted_version() == old(self).wanted_version(),
            final(self).outputs() == old(self).outputs().push(opt_view(output)),
    {
        proof {
            use_type_invariant(&*self);
        }
        let hit = match &output {
            Some(o) => contains_str(o.as_str(), self.wanted.as_str()),
            None => false,
        };
        let ghost seen = self.observed@.push(opt_view(output));
        let candidates = self.candidates.clone();
        let wanted = self.wanted.clone();
        assert(candidates@ =~= self.candidates@);
        let next = self.next;
        assert(seen.last() == opt_view(output));
        if hit {
            *self = JavaSelector { candidates, wanted, next, found: true, observed: Ghost(seen) };
        } else {
            *self = JavaSelector {
                candidates,
                wanted,
                next: next + 1,
                found: false,
                observed: Ghost(seen),
            };
        }
    }
}


// ---------------------------------------------------------------------------
// Asking the system for Java homes
// ---------------------------------------------------------------------------

/// A command that lists Java installations.
pub struct JavaListing {
    pub program: String,
    pub args: Vec<String>,
    /// The listing comes on standard error rather than standard output.
    pub from_stderr: bool,
    /// A home found in the listing counts only if it exists.
    pub must_exist: bool,
}

/// The command that lists the Java installations of `os`, if it has one:
/// `where java` on Windows, `/usr/libexec/java_home -V` on macOS,
/// `update-alternatives --list java` on Linux.
pub open spec fn java_listing(os: Os) -> Option<(Seq<char>, Seq<Seq<char>>, bool, bool)> {
    match os {
        Os::Windows => Some(("where"@, seq!["java"@], false, false)),
        Os::MacOs => Some(("/usr/libexec/java_home"@, seq!["-V"@], true, true)),
        Os::Linux => Some(("update-alternatives"@, seq!["--list"@, "java"@], false, false)),
        Os::Other => None,
    }
}

/// The command that lists the Java installations of `os`, if it has one.
pub fn java_listing_for(os: Os) -> (r: Option<JavaListing>)
    ensures
        r matches Some(l) ==> java_listing(os) == Some(
            (l.program@, texts(l.args@), l.from_stderr, l.must_exist),
        ),
        r is None ==> java_listing(os) is None,
{
    match os {
        Os::Windows => {
            let mut args: Vec<String> = Vec::new();
            args.push(String::from_str("java"));
            assert(texts(args@) =~= seq!["java"@]);
            Some(
                JavaListing {
                    program: String::from_str("where"),
                    args,
                    from_stderr: false,
                    must_exist: false,
                },
            )
        },
        Os::MacOs => {
            let mut args: Vec<String> = Vec::new();
            args.push(String::from_str("-V"));
            assert(texts(args@) =~= seq!["-V"@]);
            Some(
                JavaListing {
                    program: String::from_str("/usr/libexec/java_home"),
                    args,
                    from_stderr: true,
                    must_exist: true,
                },
            )
        },
        Os::Linux => {
            let mut args: Vec<String> = Vec::new();
            args.push(String::from_str("--list"));
            args.push(String::from_str("java"));
            assert(texts(args@) =~= seq!["--list"@, "java"@]);
            Some(
                JavaListing {
                    program: String::from_str("update-alternatives"),
                    args,
                    from_stderr: false,
                    must_exist: false,
                },
            )
        },
        Os::Other => None,
    }
}

/// The homes named by a listing of Java executables, one per line: the
/// parent of the parent of each executable (`<home>/bin/java`), for each line
/// that has one.
pub open spec fn homes_of_executables(os: Os, ls: Seq<Seq<char>>) -> Seq<Seq<char>>
    decreases ls.len(),
{
    if ls.len() == 0 {
        Seq::empty()
    } else {
        let prev = homes_of_executables(os, ls.drop_last());
        match grandparent_path(os, ls.last()) {
            Some(g) => prev.push(g),
            None => prev,
        }
    }
}

/// The home that a line of `java_home -V` names: in a line that mentions
/// `Java SE`, the text after `at ` (up to a further `at `), without white
/// space and quotes around it.
pub open spec fn macos_home_of_line(line: Seq<char>) -> Option<Seq<char>> {
    if contains_text(line, "Java SE"@) {
        match second_piece(line, "at "@) {
            Some(p) => Some(trim_char(trim_ws(p), '"')),
            None => None,
        }
    } else {
        None
    }
}

/// The homes named by the lines of `java_home -V`.
pub open spec fn macos_homes(ls: Seq<Seq<char>>) -> Seq<Seq<char>>
    decreases ls.len(),
{
    if ls.len() == 0 {
        Seq::empty()
    } else {
        let prev = macos_homes(ls.drop_last());
        match macos_home_of_line(ls.last()) {
            Some(h) => prev.push(h),
            None => prev,
        }
    }
}

/// The Java homes that the listing command of `os` names in its output.
pub open spec fn homes_in_listing(os: Os, output: Seq<char>) -> Seq<Seq<char>> {
    match os {
        Os::MacOs => macos_homes(lines(output)),
        Os::Windows | Os::Linux => homes_of_executables(os, lines(output)),
        Os::Other => Seq::empty(),
    }
}

/// The home that one line of `java_home -V` names, if any.
fn macos_home_of(line: &str) -> (r: Option<String>)
    ensures
        r matches Some(h) ==> macos_home_of_line(line@) == Some(h@),
        r is None ==> macos_home_of_line(line@) is None,
{
    if !contains_str(line, "Java SE") {
        return None;
    }
    let pat = "at ";
    proof {
        reveal_strlit("at ");
    }
    match second_piece_of(line, pat) {
        Some(p) => {
            let t = trim_str(p.as_str());
            Some(trim_char_str(t.as_str(), '"'))
        },
        None => None,
    }
}

/// The Java homes that the listing command of `os` names in its output
/// `output` (before any check that they exist).
pub fn java_homes_from_listing(os: Os, output: &str) -> (homes: Vec<String>)
    ensures
        texts(homes@) == homes_in_listing(os, output@),
{
    let ls = lines_of(output);
    let mut homes: Vec<String> = Vec::new();
    if os == Os::Other {
        return homes;
    }
    let mut i: usize = 0;
    while i < ls.len()
        invariant
            os != Os::Other,
            i <= ls@.len(),
            texts(ls@) == lines(output@),
            os == Os::MacOs ==> texts(homes@) == macos_homes(texts(ls@).take(i as int)),
            os != Os::MacOs ==> texts(homes@) == homes_of_executables(
                os,
                texts(ls@).take(i as int),
            ),
        decreases ls@.len() - i,
    {
        assert(texts(ls@).take(i + 1).drop_last() =~= texts(ls@).take(i as int));
        assert(texts(ls@).take(i + 1).last() == ls@[i as int]@);
        let ghost before = texts(homes@);
        if os == Os::MacOs {
            match macos_home_of(ls[i].as_str()) {
                Some(h) => {
                    homes.push(h);
                    assert(texts(homes@) =~= before.push(homes@.last()@));
                },
                None => {},
            }
        } else {
            let cs = chars_of(ls[i].as_str());
            match parent_of(os, &cs) {
                Some(p1) => match parent_of(os, &p1) {
                    Some(p2) => {
                        homes.push(string_from_chars(p2.as_slice()));
                        assert(texts(homes@) =~= before.push(p2@));
                    },
                    None => {},
                },
                None => {},
            }
        }
        i = i + 1;
    }
    assert(texts(ls@).take(ls@.len() as int) =~= texts(ls@));
    homes
}

// ---------------------------------------------------------------------------
// Searching directories for Java installations
// ---------------------------------------------------------------------------

/// How deep below each search root the search for Java installations walks:
/// the root itself is depth 0, so a home at most three directories down is
/// found.
pub const JAVA_SEARCH_MAX_DEPTH: usize = 3;

/// Whether the search for Java installations follows symbolic links to
/// directories (it does: many systems link their Java homes).
pub const JAVA_SEARCH_FOLLOWS_LINKS: bool = true;

/// The directories searched for Java installations on `os`, in the order
/// they are searched. A root that does not exist on the machine is passed
/// over; below each root the search enters only directories whose name
/// passes `java_dir_name_ok` (lower-cased), walks at most
/// `JAVA_SEARCH_MAX_DEPTH` levels, follows links as
/// `JAVA_SEARCH_FOLLOWS_LINKS` says, and keeps each directory in which
/// `java_executable` names an existing file.
pub open spec fn java_search_roots(os: Os) -> Seq<Seq<char>> {
    match os {
        Os::Windows => seq![
            "C:\\Program Files\\Java"@,
            "C:\\Program Files (x86)\\Java"@,
            "D:\\Program Files\\Java"@,
            "D:\\Program Files (x86)\\Java"@,
            "D:\\.xmcl\\jre\\java-runtime-delta"@,
        ],
        Os::MacOs => seq![
            "/Library/Java/JavaVirtualMachines"@,
            "/System/Library/Java/JavaVirtualMachines"@,
            "/usr/local/opt/java"@,
            "/opt/homebrew/opt/java"@,
        ],
        Os::Linux => seq!["/usr/lib/jvm"@, "/usr/java"@, "/opt/java"@, "/usr/local/java"@],
        Os::Other => Seq::empty(),
    }
}

/// The directories searched for Java installations on `os`.
pub fn java_search_roots_of(os: Os) -> (r: Vec<String>)
    ensures
        texts(r@) == java_search_roots(os),
{
    let mut r: Vec<String> = Vec::new();
    match os {
        Os::Windows => {
            r.push(String::from_str("C:\\Program Files\\Java"));
            r.push(String::from_str("C:\\Program Files (x86)\\Java"));
            r.push(String::from_str("D:\\Program Files\\Java"));
            r.push(String::from_str("D:\\Program Files (x86)\\Java"));
            r.push(String::from_str("D:\\.xmcl\\jre\\java-runtime-delta"));
        },
        Os::MacOs => {
            r.push(String::from_str("/Library/Java/JavaVirtualMachines"));
            r.push(String::from_str("/System/Library/Java/JavaVirtualMachines"));
            r.push(String::from_str("/usr/local/opt/java"));
            r.push(String::from_str("/opt/homebrew/opt/java"));
        },
        Os::Linux => {
            r.push(String::from_str("/usr/lib/jvm"));
            r.push(String::from_str("/usr/java"));
            r.push(String::from_str("/opt/java"));
            r.push(String::from_str("/usr/local/java"));
        },
        Os::Other => {},
    }
    assert(texts(r@) =~= java_search_roots(os));
    r
}

/// A lower-cased directory name that the search enters: it does not begin
/// with a dot and it mentions `jdk`, `jre` or `java`.
pub open spec fn java_dir_name_ok(lower: Seq<char>) -> bool {
    !(lower.len() > 0 && lower[0] == '.') && (contains_text(lower, "jdk"@) || contains_text(
        lower,
        "jre"@,
    ) || contains_text(lower, "java"@))
}

/// The lower-case form of a text (`str::to_lowercase`), by the Unicode
/// Lowercase mapping.
pub uninterp spec fn lowercase(s: Seq<char>) -> Seq<char>;

/// `str::to_lowercase`. Claims that the result is the lower-case form that
/// `lowercase` names, a function of the text alone.
#[verifier::external_body]
fn to_lowercase(s: &str) -> (r: String)
    ensures
        r@ == lowercase(s@),
{
    s.to_lowercase()
}

/// Whether the search enters a directory whose lower-cased name is `lower`.
pub fn lowered_java_dir_name(lower: &str) -> (b: bool)
    ensures
        b == java_dir_name_ok(lower@),
{
    let n = lower.unicode_len();
    let dot = n > 0 && lower.get_char(0) == '.';
    !dot && (contains_str(lower, "jdk") || contains_str(lower, "jre") || contains_str(
        lower,
        "java",
    ))
}

/// Whether the search for Java installations enters the directory named
/// `name`.
pub fn java_dir_name_matches(name: &str) -> (b: bool)
    ensures
        b == java_dir_name_ok(lowercase(name@)),
{
    let lower = to_lowercase(name);
    lowered_java_dir_name(lower.as_str())
}

/// The Java executable of an installation directory: `bin/java.exe` on
/// Windows, `bin/java` elsewhere.
pub open spec fn java_executable(os: Os, dir: Seq<char>) -> Seq<char> {
    join_path(
        os,
        join_path(os, dir, "bin"@),
        if os == Os::Windows {
            "java.exe"@
        } else {
            "java"@
        },
    )
}

/// The executable looked for in the Java home `dir` is `java` in its `bin`
/// directory on every system but Windows, and `java.exe` there on Windows:
/// the home, the separator that joining puts after it, then `bin/java`, or
/// `bin\java.exe` on Windows. (A verbatim `\\?\` home, or the text `\\?`,
/// on which joining reads components, is left out.)
#[verifier::rlimit(60)]
pub proof fn law_java_executable_in_bin(os: Os, dir: Seq<char>)
    requires
        !is_verbatim(os, dir),
        dir != "\\\\?"@,
    ensures
        os != Os::Windows ==> java_executable(os, dir) == dir + join_gap(os, dir) + "bin/java"@,
        os == Os::Windows ==> java_executable(os, dir) == dir + join_gap(os, dir)
            + "bin\\java.exe"@,
{
    reveal_strlit("bin");
    reveal_strlit("java");
    reveal_strlit("java.exe");
    let bin = "bin"@;
    let exe = if os == Os::Windows {
        "java.exe"@
    } else {
        "java"@
    };
    lemma_plain_part_relative(os, bin);
    lemma_plain_part_relative(os, exe);
    lemma_join_relative(os, dir, bin);
    let g = join_gap(os, dir);
    let b = join_path(os, dir, bin);
    lemma_bin_dir_not_verbatim(os, dir, g, b);
    lemma_join_relative(os, b, exe);
    lemma_gap_after_name(os, b);
    let sep = seq![os.spec_main_separator()];
    assert(java_executable(os, dir) == b + sep + exe);
    if os == Os::Windows {
        reveal_strlit("bin\\java.exe");
        assert(bin + sep + exe =~= "bin\\java.exe"@);
    } else {
        reveal_strlit("bin/java");
        assert(bin + sep + exe =~= "bin/java"@);
    }
    assert(java_executable(os, dir) =~= dir + g + (bin + sep + exe));
}

/// `bin` joined onto a home that is neither verbatim nor `\\?` is not
/// verbatim.
proof fn lemma_bin_dir_not_verbatim(os: Os, dir: Seq<char>, g: Seq<char>, b: Seq<char>)
    requires
        !is_verbatim(os, dir),
        dir != "\\\\?"@,
        g == join_gap(os, dir),
        g.len() <= 1,
        b == dir + g + "bin"@,
    ensures
        !is_verbatim(os, b),
{
    reveal_strlit("bin");
    reveal_strlit("\\\\?");
    if os == Os::Windows {
        lemma_verbatim_start(dir);
        lemma_verbatim_start(b);
        if b.len() >= 4 && b[0] == '\\' && b[1] == '\\' && b[2] == '?' && b[3] == '\\' {
            if dir.len() >= 4 {
                assert(b[0] == dir[0] && b[1] == dir[1] && b[2] == dir[2] && b[3] == dir[3]);
            } else if dir.len() == 3 {
                assert(b[0] == dir[0] && b[1] == dir[1] && b[2] == dir[2]);
                assert(dir =~= "\\\\?"@);
            } else {
                assert(b[3] == "bin"@[3 - dir.len() - g.len()]);
            }
        }
    }
}

/// The Java executable of the installation directory `dir`.
pub fn java_executable_of(os: Os, dir: &str) -> (e: String)
    ensures
        e@ == java_executable(os, dir@),
{
    let bin = join(os, dir, "bin");
    if os == Os::Windows {
        join(os, bin.as_str(), "java.exe")
    } else {
        join(os, bin.as_str(), "java")
    }
}

} // verus!
