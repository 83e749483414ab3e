use vstd::prelude::*;

verus! {

// ---------------------------------------------------------------------------
// Characters of a string, and strings built from characters
// ---------------------------------------------------------------------------

/// The characters of `s`, in order.
pub fn chars_of(s: &str) -> (v: Vec<char>)
    ensures
        v@ == s@,
{
    let n = s.unicode_len();
    let mut v: Vec<char> = Vec::new();
    let mut i: usize = 0;
    while i < n
        invariant
            n == s@.len(),
            i <= n,
            v@ == s@.take(i as int),
        decreases n - i,
    {
        let c = s.get_char(i);
        v.push(c);
        i = i + 1;
        assert(v@ =~= s@.take(i as int));
    }
    assert(s@.take(n as int) =~= s@);
    v
}

/// `String::push`: appends one character at the end of the string.
#[verifier::external_body]
fn push_char(s: &mut String, c: char)
    ensures
        final(s)@ == old(s)@.push(c),
{
    s.push(c);
}

/// The string whose characters are `cs`, in order.
pub fn string_from_chars(cs: &[char]) -> (s: String)
    ensures
        s@ == cs@,
{
    let mut s = String::new();
    let mut i: usize = 0;
    while i < cs.len()
        invariant
            i <= cs@.len(),
            s@ == cs@.take(i as int),
        decreases cs@.len() - i,
    {
        push_char(&mut s, cs[i]);
        i = i + 1;
        assert(s@ =~= cs@.take(i as int));
    }
    assert(cs@.take(cs@.len() as int) =~= cs@);
    s
}

/// A new string holding `a` followed by `b`.
pub fn concat_str(a: &str, b: &str) -> (s: String)
    ensures
        s@ == a@ + b@,
{
    let mut s = String::from_str(a);
    s.append(b);
    s
}

// ---------------------------------------------------------------------------
// White space and words
// ---------------------------------------------------------------------------

/// The characters with the Unicode property White_Space, the set that
/// `char::is_whitespace` tests.
pub open spec fn is_white_space(c: char) -> bool {
    let u = c as u32;
    ||| 0x09 <= u <= 0x0D
    ||| u == 0x20
    ||| u == 0x85
    ||| u == 0xA0
    ||| u == 0x1680
    ||| 0x2000 <= u <= 0x200A
    ||| u == 0x2028
    ||| u == 0x2029
    ||| u == 0x202F
    ||| u == 0x205F
    ||| u == 0x3000
}

pub fn white_space(c: char) -> (b: bool)
    ensures
        b == is_white_space(c),
{
    let u = c as u32;
    (0x09 <= u && u <= 0x0D) || u == 0x20 || u == 0x85 || u == 0xA0 || u == 0x1680 || (0x2000
        <= u && u <= 0x200A) || u == 0x2028 || u == 0x2029 || u == 0x202F || u == 0x205F || u
        == 0x3000
}

/// White space is exactly the characters with the Unicode property
/// White_Space: U+0009 to U+000D, U+0020, U+0085, U+00A0, U+1680, U+2000 to
/// U+200A, U+2028, U+2029, U+202F, U+205F and U+3000.
pub proof fn law_white_space_code_points(c: char)
    ensures
        is_white_space(c) <==> set![
            0x09u32,
            0x0Au32,
            0x0Bu32,
            0x0Cu32,
            0x0Du32,
            0x20u32,
            0x85u32,
            0xA0u32,
            0x1680u32,
            0x2000u32,
            0x2001u32,
            0x2002u32,
            0x2003u32,
            0x2004u32,
            0x2005u32,
            0x2006u32,
            0x2007u32,
            0x2008u32,
            0x2009u32,
            0x200Au32,
            0x2028u32,
            0x2029u32,
            0x202Fu32,
            0x205Fu32,
            0x3000u32,
        ].contains(c as u32),
{
}

/// Among the ASCII characters, white space is exactly the tab, line feed,
/// vertical tab, form feed, carriage return and space: no letter, digit or
/// punctuation mark is white space.
pub proof fn law_ascii_white_space(c: char)
    requires
        (c as u32) < 0x80,
    ensures
        is_white_space(c) <==> (0x09 <= (c as u32) <= 0x0D || c == ' '),
{
}

/// Reading a text of printable ASCII characters (U+0021 to U+007E) closes no
/// word and keeps the whole text open.
proof fn lemma_printable_scan(s: Seq<char>)
    requires
        forall|i: int| 0 <= i < s.len() ==> 0x21 <= (#[trigger] s[i] as u32) <= 0x7E,
    ensures
        word_scan(s) == (Seq::<Seq<char>>::empty(), s),
    decreases s.len(),
{
    if s.len() > 0 {
        let t = s.drop_last();
        assert forall|i: int| 0 <= i < t.len() implies 0x21 <= (#[trigger] t[i] as u32) <= 0x7E by {
            assert(t[i] == s[i]);
        }
        lemma_printable_scan(t);
        assert(0x21 <= (s[s.len() - 1] as u32) <= 0x7E);
        assert(!is_white_space(s.last()));
        assert(t.push(s.last()) =~= s);
    }
}

/// A non-empty text of printable ASCII characters (U+0021 to U+007E), such
/// as `-Xmx4G`, is a single word: itself.
pub proof fn law_printable_ascii_is_one_word(s: Seq<char>)
    requires
        s.len() > 0,
        forall|i: int| 0 <= i < s.len() ==> 0x21 <= (#[trigger] s[i] as u32) <= 0x7E,
    ensures
        words(s) == seq![s],
{
    lemma_printable_scan(s);
}

/// A word: a non-empty run of characters none of which is white space.
pub open spec fn is_word(w: Seq<char>) -> bool {
    w.len() > 0 && forall|i: int| 0 <= i < w.len() ==> !is_white_space(#[trigger] w[i])
}

/// Reading `s` from left to right: the words already closed by white space,
/// and the characters of the word still open at the end of `s`.
pub open spec fn word_scan(s: Seq<char>) -> (Seq<Seq<char>>, Seq<char>)
    decreases s.len(),
{
    if s.len() == 0 {
        (Seq::empty(), Seq::empty())
    } else {
        let (done, open) = word_scan(s.drop_last());
        let c = s.last();
        if is_white_space(c) {
            if open.len() > 0 {
                (done.push(open), Seq::empty())
            } else {
                (done, Seq::empty())
            }
        } else {
            (done, open.push(c))
        }
    }
}

/// The words of `s`: its maximal runs of characters that are not white space,
/// in order, as `str::split_whitespace` yields them.
pub open spec fn words(s: Seq<char>) -> Seq<Seq<char>> {
    let (done, open) = word_scan(s);
    if open.len() > 0 {
        done.push(open)
    } else {
        done
    }
}

/// The words of `s` (`str::split_whitespace`).
pub fn split_whitespace(s: &str) -> (ws: Vec<String>)
    ensures
        ws@.map_values(|w: String| w@) == words(s@),
{
    let cs = chars_of(s);
    let mut out: Vec<String> = Vec::new();
    let mut open: Vec<char> = Vec::new();
    let mut i: usize = 0;
    while i < cs.len()
        invariant
            cs@ == s@,
            i <= cs@.len(),
            word_scan(cs@.take(i as int)) == (out@.map_values(|w: String| w@), open@),
        decreases cs@.len() - i,
    {
        let c = cs[i];
        assert(cs@.take(i + 1).drop_last() =~= cs@.take(i as int));
        if white_space(c) {
            if open.len() > 0 {
                let w = string_from_chars(open.as_slice());
                out.push(w);
                open = Vec::new();
            }
        } else {
            open.push(c);
        }
        i = i + 1;
        assert(out@.map_values(|w: String| w@) =~= word_scan(cs@.take(i as int)).0);
        assert(open@ =~= word_scan(cs@.take(i as int)).1);
    }
    assert(cs@.take(cs@.len() as int) =~= cs@);
    if open.len() > 0 {
        let w = string_from_chars(open.as_slice());
        out.push(w);
    }
    assert(out@.map_values(|w: String| w@) =~= words(s@));
    out
}


/// Every item of `words(s)` is a word.
pub proof fn lemma_words_are_words(s: Seq<char>)
    ensures
        forall|i: int| 0 <= i < words(s).len() ==> is_word(#[trigger] words(s)[i]),
{
    lemma_word_scan_parts(s);
}

proof fn lemma_word_scan_parts(s: Seq<char>)
    ensures
        forall|i: int|
            0 <= i < word_scan(s).0.len() ==> is_word(#[trigger] word_scan(s).0[i]),
        forall|i: int|
            0 <= i < word_scan(s).1.len() ==> !is_white_space(#[trigger] word_scan(s).1[i]),
    decreases s.len(),
{
    if s.len() > 0 {
        lemma_word_scan_parts(s.drop_last());
        let (d, o) = word_scan(s.drop_last());
        let c = s.last();
        if is_white_space(c) {
            if o.len() > 0 {
                assert(is_word(o));
                assert forall|i: int| 0 <= i < d.push(o).len() implies is_word(
                    #[trigger] d.push(o)[i],
                ) by {
                    if i < d.len() {
                        assert(d.push(o)[i] == d[i]);
                    }
                }
            }
        } else {
            assert forall|i: int| 0 <= i < o.push(c).len() implies !is_white_space(
                #[trigger] o.push(c)[i],
            ) by {
                if i < o.len() {
                    assert(o.push(c)[i] == o[i]);
                }
            }
        }
    }
}

/// Once the scan stands between words, what follows is scanned on its own.
proof fn lemma_word_scan_append(x: Seq<char>, y: Seq<char>)
    requires
        word_scan(x).1.len() == 0,
    ensures
        word_scan(x + y) == (word_scan(x).0 + word_scan(y).0, word_scan(y).1),
    decreases y.len(),
{
    if y.len() == 0 {
        assert(x + y =~= x);
        assert(word_scan(x).0 + word_scan(y).0 =~= word_scan(x).0);
    } else {
        lemma_word_scan_append(x, y.drop_last());
        assert((x + y).drop_last() =~= x + y.drop_last());
        assert((x + y).last() == y.last());
        let (d, o) = word_scan(y.drop_last());
        assert((word_scan(x).0 + d).push(o) =~= word_scan(x).0 + d.push(o));
    }
}

proof fn lemma_word_scan_of_word(w: Seq<char>)
    requires
        forall|i: int| 0 <= i < w.len() ==> !is_white_space(#[trigger] w[i]),
    ensures
        word_scan(w) == (Seq::<Seq<char>>::empty(), w),
    decreases w.len(),
{
    if w.len() > 0 {
        lemma_word_scan_of_word(w.drop_last());
        assert(w.drop_last().push(w.last()) =~= w);
    }
}

/// The items of `list`, with `sep` between each two of them.
pub open spec fn seq_join<T>(list: Seq<Seq<T>>, sep: Seq<T>) -> Seq<T>
    decreases list.len(),
{
    if list.len() == 0 {
        Seq::empty()
    } else if list.len() == 1 {
        list[0]
    } else {
        seq_join(list.drop_last(), sep) + sep + list.last()
    }
}

proof fn lemma_words_of_spaced_words(ws: Seq<Seq<char>>)
    requires
        forall|i: int| 0 <= i < ws.len() ==> is_word(#[trigger] ws[i]),
    ensures
        words(seq_join(ws, seq![' '])) == ws,
    decreases ws.len(),
{
    if ws.len() == 1 {
        lemma_word_scan_of_word(ws[0]);
        assert(seq![ws[0]] =~= ws);
    } else if ws.len() > 1 {
        let init = ws.drop_last();
        let w = ws.last();
        assert(forall|i: int| 0 <= i < init.len() ==> init[i] == ws[i]);
        lemma_words_of_spaced_words(init);
        let j = seq_join(init, seq![' ']);
        let js = j + seq![' '];
        assert(js.drop_last() =~= j);
        assert(js.last() == ' ');
        assert(is_white_space(' '));
        assert(word_scan(js).1.len() == 0);
        assert(word_scan(js).0 == words(j));
        assert(is_word(ws[ws.len() - 1]));
        lemma_word_scan_of_word(w);
        lemma_word_scan_append(js, w);
        assert(init.push(w) =~= ws);
        assert(Seq::<Seq<char>>::empty() + Seq::<Seq<char>>::empty() =~= Seq::<Seq<char>>::empty());
        assert(words(j) + Seq::<Seq<char>>::empty() =~= words(j));
    } else {
        assert(ws =~= Seq::<Seq<char>>::empty());
        assert(word_scan(Seq::<char>::empty()) == (Seq::<Seq<char>>::empty(), Seq::<char>::empty()));
    }
}

/// Splitting a text into words, joining them with single spaces and splitting
/// again gives the same words.
pub proof fn lemma_split_join_split(s: Seq<char>)
    ensures
        words(seq_join(words(s), seq![' '])) == words(s),
{
    lemma_words_are_words(s);
    lemma_words_of_spaced_words(words(s));
}

/// The strings of `list` joined with `sep` between each two of them
/// (`[String]::join`).
pub fn join_strings(list: &Vec<String>, sep: &str) -> (res: String)
    ensures
        res@ == seq_join(list@.map_values(|v: String| v@), sep@),
{
    let ghost views = list@.map_values(|v: String| v@);
    let mut res = String::new();
    let mut i: usize = 0;
    while i < list.len()
        invariant
            views == list@.map_values(|v: String| v@),
            i <= list@.len(),
            res@ == seq_join(views.take(i as int), sep@),
        decreases list@.len() - i,
    {
        assert(views.take(i + 1).drop_last() =~= views.take(i as int));
        if i != 0 {
            res.append(sep);
        } else {
            assert(views.take(0) =~= Seq::<Seq<char>>::empty());
            assert(res@ =~= Seq::<char>::empty());
        }
        res.append(list[i].as_str());
        i = i + 1;
        assert(res@ =~= seq_join(views.take(i as int), sep@));
    }
    assert(views.take(list@.len() as int) =~= views);
    res
}


// ---------------------------------------------------------------------------
// Searching for a piece of text
// ---------------------------------------------------------------------------

/// `needle` stands in `hay` from index `i` on.
pub open spec fn occurs_at(hay: Seq<char>, needle: Seq<char>, i: int) -> bool {
    0 <= i && i + needle.len() <= hay.len() && hay.subrange(i, i + needle.len()) == needle
}

/// `needle` stands somewhere in `hay` (`str::contains`).
pub open spec fn contains_text(hay: Seq<char>, needle: Seq<char>) -> bool {
    exists|i: int| occurs_at(hay, needle, i)
}

/// The first index, at `from` or after it, where `needle` stands in `hay`.
pub open spec fn first_occurrence_from(hay: Seq<char>, needle: Seq<char>, from: int) -> Option<int>
    decreases hay.len() + 1 - from,
{
    if from < 0 || from + needle.len() > hay.len() {
        None
    } else if occurs_at(hay, needle, from) {
        Some(from)
    } else {
        first_occurrence_from(hay, needle, from + 1)
    }
}

pub proof fn lemma_first_occurrence(hay: Seq<char>, needle: Seq<char>, from: int)
    requires
        0 <= from,
    ensures
        first_occurrence_from(hay, needle, from) matches Some(k) ==> {
            &&& from <= k
            &&& occurs_at(hay, needle, k)
            &&& forall|j: int| from <= j < k ==> !occurs_at(hay, needle, j)
        },
        first_occurrence_from(hay, needle, from) is None ==> forall|j: int|
            from <= j ==> !occurs_at(hay, needle, j),
    decreases hay.len() + 1 - from,
{
    if from + needle.len() <= hay.len() && !occurs_at(hay, needle, from) {
        lemma_first_occurrence(hay, needle, from + 1);
    }
}

/// Whether `needle` stands in `hay` at index `i`.
fn occurs_at_exec(hay: &Vec<char>, needle: &Vec<char>, i: usize) -> (b: bool)
    ensures
        b == occurs_at(hay@, needle@, i as int),
{
    if i > hay.len() || needle.len() > hay.len() - i {
        return false;
    }
    let mut k: usize = 0;
    while k < needle.len()
        invariant
            i + needle@.len() <= hay@.len(),
            hay@.len() == hay.len(),
            k <= needle@.len(),
            forall|j: int| 0 <= j < k ==> hay@[i + j] == needle@[j],
        decreases needle@.len() - k,
    {
        if hay[i + k] != needle[k] {
            assert(hay@.subrange(i as int, i + needle@.len())[k as int] != needle@[k as int]);
            return false;
        }
        k = k + 1;
    }
    assert(hay@.subrange(i as int, i + needle@.len()) =~= needle@);
    true
}

/// The first index, at `from` or after it, where `needle` stands in `hay`.
pub fn find_from(hay: &Vec<char>, needle: &Vec<char>, from: usize) -> (r: Option<usize>)
    ensures
        r matches Some(k) ==> first_occurrence_from(hay@, needle@, from as int) == Some(k as int),
        r is None ==> first_occurrence_from(hay@, needle@, from as int) is None,
{
    let mut i = from;
    while i <= hay.len() && needle.len() <= hay.len() - i
        invariant
            from <= i,
            first_occurrence_from(hay@, needle@, from as int) == first_occurrence_from(
                hay@,
                needle@,
                i as int,
            ),
        decreases hay@.len() + 1 - i,
    {
        if occurs_at_exec(hay, needle, i) {
            return Some(i);
        }
        if i >= hay.len() {
            assert(first_occurrence_from(hay@, needle@, i + 1) is None);
            return None;
        }
        i = i + 1;
    }
    None
}

/// Whether `needle` stands somewhere in `hay` (`str::contains`).
pub fn contains_str(hay: &str, needle: &str) -> (b: bool)
    ensures
        b == contains_text(hay@, needle@),
{
    let h = chars_of(hay);
    let n = chars_of(needle);
    let r = find_from(&h, &n, 0);
    proof {
        lemma_first_occurrence(hay@, needle@, 0);
    }
    r.is_some()
}

/// Whether `s` ends with the character `c`.
pub fn ends_with_char(s: &str, c: char) -> (b: bool)
    ensures
        b == (s@.len() > 0 && s@.last() == c),
{
    let n = s.unicode_len();
    n > 0 && s.get_char(n - 1) == c
}


// ---------------------------------------------------------------------------
// The order of strings
// ---------------------------------------------------------------------------

/// `a` comes before `b` in the order of `String`: character by character,
/// by code point, a proper prefix first. (UTF-8 keeps the order of code
/// points, so this is the byte order that `Ord for String` uses.)
pub open spec fn text_less(a: Seq<char>, b: Seq<char>) -> bool
    decreases a.len(),
{
    if a.len() == 0 {
        b.len() > 0
    } else if b.len() == 0 {
        false
    } else if a[0] != b[0] {
        a[0] < b[0]
    } else {
        text_less(a.drop_first(), b.drop_first())
    }
}

pub proof fn lemma_text_less_irreflexive(a: Seq<char>)
    ensures
        !text_less(a, a),
    decreases a.len(),
{
    if a.len() > 0 {
        lemma_text_less_irreflexive(a.drop_first());
    }
}

pub proof fn lemma_text_less_transitive(a: Seq<char>, b: Seq<char>, c: Seq<char>)
    requires
        text_less(a, b),
        text_less(b, c),
    ensures
        text_less(a, c),
    decreases a.len(),
{
    if a.len() > 0 && b.len() > 0 && c.len() > 0 && a[0] == b[0] && b[0] == c[0] {
        lemma_text_less_transitive(a.drop_first(), b.drop_first(), c.drop_first());
    }
}

pub proof fn lemma_text_less_total(a: Seq<char>, b: Seq<char>)
    ensures
        a == b || text_less(a, b) || text_less(b, a),
    decreases a.len(),
{
    if a.len() > 0 && b.len() > 0 {
        if a[0] == b[0] {
            lemma_text_less_total(a.drop_first(), b.drop_first());
            if a.drop_first() == b.drop_first() {
                assert(a =~= seq![a[0]] + a.drop_first());
                assert(b =~= seq![b[0]] + b.drop_first());
            }
        } else {
            assert(a[0] < b[0] || b[0] < a[0]);
        }
    } else if a.len() == 0 && b.len() == 0 {
        assert(a =~= b);
    }
}

pub proof fn lemma_text_less_asymmetric(a: Seq<char>, b: Seq<char>)
    requires
        text_less(a, b),
    ensures
        !text_less(b, a),
{
    if text_less(b, a) {
        lemma_text_less_transitive(a, b, a);
        lemma_text_less_irreflexive(a);
    }
}

/// Whether `a` comes before `b` in the order of `String`.
pub fn string_less(a: &str, b: &str) -> (r: bool)
    ensures
        r == text_less(a@, b@),
{
    let x = chars_of(a);
    let y = chars_of(b);
    let mut i: usize = 0;
    assert(x@.skip(0) =~= x@);
    assert(y@.skip(0) =~= y@);
    while i < x.len() && i < y.len() && x[i] == y[i]
        invariant
            i <= x@.len(),
            i <= y@.len(),
            text_less(a@, b@) == text_less(x@.skip(i as int), y@.skip(i as int)),
            x@ == a@,
            y@ == b@,
        decreases x@.len() - i,
    {
        assert(x@.skip(i as int).drop_first() =~= x@.skip(i + 1));
        assert(y@.skip(i as int).drop_first() =~= y@.skip(i + 1));
        i = i + 1;
    }
    if i == x.len() {
        i < y.len()
    } else if i == y.len() {
        false
    } else {
        x[i] < y[i]
    }
}


// ---------------------------------------------------------------------------
// Lines
// ---------------------------------------------------------------------------

/// The index of the first `c` in `s`, if there is one.
pub open spec fn index_of_char(s: Seq<char>, c: char) -> Option<nat>
    decreases s.len(),
{
    if s.len() == 0 {
        None
    } else if s[0] == c {
        Some(0)
    } else {
        match index_of_char(s.drop_first(), c) {
            Some(k) => Some(k + 1),
            None => None,
        }
    }
}

/// `s` without one carriage return at its end.
pub open spec fn strip_carriage_return(s: Seq<char>) -> Seq<char> {
    if s.len() > 0 && s.last() == '\r' {
        s.drop_last()
    } else {
        s
    }
}

/// The lines of `s` (`str::lines`): the pieces between line feeds, each
/// without a carriage return that ends it; a final line feed ends the last
/// line rather than starting an empty one.
pub open spec fn lines(s: Seq<char>) -> Seq<Seq<char>>
    decreases s.len(),
{
    if s.len() == 0 {
        Seq::empty()
    } else {
        match index_of_char(s, '\n') {
            Some(k) => if k < s.len() {
                seq![strip_carriage_return(s.take(k as int))] + lines(s.skip(k as int + 1))
            } else {
                seq![s]
            },
            None => seq![s],
        }
    }
}

proof fn lemma_index_of_char_exact(s: Seq<char>, c: char, k: int)
    requires
        0 <= k < s.len(),
        s[k] == c,
        forall|j: int| 0 <= j < k ==> s[j] != c,
    ensures
        index_of_char(s, c) == Some(k as nat),
    decreases k,
{
    if k > 0 {
        lemma_index_of_char_exact(s.drop_first(), c, k - 1);
    }
}

proof fn lemma_index_of_char_none(s: Seq<char>, c: char)
    requires
        forall|j: int| 0 <= j < s.len() ==> s[j] != c,
    ensures
        index_of_char(s, c) is None,
    decreases s.len(),
{
    if s.len() > 0 {
        lemma_index_of_char_none(s.drop_first(), c);
    }
}

/// The lines of `s` (`str::lines`).
pub fn lines_of(s: &str) -> (ls: Vec<String>)
    ensures
        texts(ls@) == lines(s@),
{
    let cs = chars_of(s);
    let mut ls: Vec<String> = Vec::new();
    let mut start: usize = 0;
    let mut i: usize = 0;
    assert(cs@.skip(0) =~= cs@);
    while i < cs.len()
        invariant
            cs@ == s@,
            start <= i <= cs@.len(),
            lines(s@) == texts(ls@) + lines(cs@.skip(start as int)),
            forall|j: int| start <= j < i ==> cs@[j] != '\n',
        decreases cs@.len() - i,
    {
        if cs[i] == '\n' {
            let ghost rest = cs@.skip(start as int);
            proof {
                lemma_index_of_char_exact(rest, '\n', i - start);
                assert(rest.skip(i - start + 1) =~= cs@.skip(i + 1));
                assert(rest.take(i - start) =~= cs@.subrange(start as int, i as int));
            }
            let mut piece: Vec<char> = Vec::new();
            let mut k = start;
            let end = if i > start && cs[i - 1] == '\r' {
                i - 1
            } else {
                i
            };
            while k < end
                invariant
                    start <= k <= end <= i < cs@.len(),
                    piece@ == cs@.subrange(start as int, k as int),
                decreases end - k,
            {
                piece.push(cs[k]);
                k = k + 1;
                assert(piece@ =~= cs@.subrange(start as int, k as int));
            }
            assert(piece@ =~= strip_carriage_return(cs@.subrange(start as int, i as int)));
            let ghost before = texts(ls@);
            ls.push(string_from_chars(piece.as_slice()));
            assert(texts(ls@) =~= before.push(piece@));
            assert(lines(s@) =~= texts(ls@) + lines(cs@.skip(i + 1)));
            start = i + 1;
        }
        i = i + 1;
    }
    if start < cs.len() {
        let ghost rest = cs@.skip(start as int);
        proof {
            lemma_index_of_char_none(rest, '\n');
        }
        let mut piece: Vec<char> = Vec::new();
        let mut k = start;
        while k < cs.len()
            invariant
                start <= k <= cs@.len(),
                piece@ == cs@.subrange(start as int, k as int),
            decreases cs@.len() - k,
        {
            piece.push(cs[k]);
            k = k + 1;
            assert(piece@ =~= cs@.subrange(start as int, k as int));
        }
        assert(piece@ =~= rest);
        let ghost before = texts(ls@);
        ls.push(string_from_chars(piece.as_slice()));
        assert(texts(ls@) =~= before + seq![rest]);
    } else {
        assert(cs@.skip(start as int) =~= Seq::<char>::empty());
        assert(texts(ls@) + Seq::<Seq<char>>::empty() =~= texts(ls@));
    }
    ls
}

/// The texts of a sequence of strings.
pub open spec fn texts(v: Seq<String>) -> Seq<Seq<char>> {
    v.map_values(|s: String| s@)
}

// ---------------------------------------------------------------------------
// Trimming
// ---------------------------------------------------------------------------

/// `s` without the white space at its start.
pub open spec fn trim_start_ws(s: Seq<char>) -> Seq<char>
    decreases s.len(),
{
    if s.len() > 0 && is_white_space(s[0]) {
        trim_start_ws(s.drop_first())
    } else {
        s
    }
}

/// `s` without the white space at its end.
pub open spec fn trim_end_ws(s: Seq<char>) -> Seq<char>
    decreases s.len(),
{
    if s.len() > 0 && is_white_space(s.last()) {
        trim_end_ws(s.drop_last())
    } else {
        s
    }
}

/// `s` without white space at either end (`str::trim`).
pub open spec fn trim_ws(s: Seq<char>) -> Seq<char> {
    trim_end_ws(trim_start_ws(s))
}

/// `s` without the copies of `c` at its start.
pub open spec fn trim_start_char(s: Seq<char>, c: char) -> Seq<char>
    decreases s.len(),
{
    if s.len() > 0 && s[0] == c {
        trim_start_char(s.drop_first(), c)
    } else {
        s
    }
}

/// `s` without the copies of `c` at its end.
pub open spec fn trim_end_char(s: Seq<char>, c: char) -> Seq<char>
    decreases s.len(),
{
    if s.len() > 0 && s.last() == c {
        trim_end_char(s.drop_last(), c)
    } else {
        s
    }
}

/// `s` without copies of `c` at either end (`str::trim_matches`).
pub open spec fn trim_char(s: Seq<char>, c: char) -> Seq<char> {
    trim_end_char(trim_start_char(s, c), c)
}

/// Whether trimming takes `x` off: white space, or copies of `c`.
fn trimmed_char(white: bool, c: char, x: char) -> (b: bool)
    ensures
        b == if white {
            is_white_space(x)
        } else {
            x == c
        },
{
    if white {
        white_space(x)
    } else {
        x == c
    }
}

/// The bounds of `cs@.subrange(a, b)` once the characters that `white`
/// chooses (white space, or `c`) are taken off both ends.
fn trim_bounds(cs: &Vec<char>, a: usize, b: usize, white: bool, c: char) -> (r: (usize, usize))
    requires
        a <= b <= cs@.len(),
    ensures
        a <= r.0 <= r.1 <= b,
        white ==> cs@.subrange(r.0 as int, r.1 as int) == trim_ws(cs@.subrange(a as int, b as int)),
        !white ==> cs@.subrange(r.0 as int, r.1 as int) == trim_char(
            cs@.subrange(a as int, b as int),
            c,
        ),
{
    let mut x = a;
    while x < b && trimmed_char(white, c, cs[x])
        invariant
            a <= x <= b <= cs@.len(),
            white ==> trim_start_ws(cs@.subrange(a as int, b as int)) == trim_start_ws(
                cs@.subrange(x as int, b as int),
            ),
            !white ==> trim_start_char(cs@.subrange(a as int, b as int), c) == trim_start_char(
                cs@.subrange(x as int, b as int),
                c,
            ),
        decreases b - x,
    {
        assert(cs@.subrange(x as int, b as int).drop_first() =~= cs@.subrange(x + 1, b as int));
        x = x + 1;
    }
    let mut y = b;
    while y > x && trimmed_char(white, c, cs[y - 1])
        invariant
            a <= x <= y <= b <= cs@.len(),
            white ==> trim_end_ws(cs@.subrange(x as int, b as int)) == trim_end_ws(
                cs@.subrange(x as int, y as int),
            ),
            !white ==> trim_end_char(cs@.subrange(x as int, b as int), c) == trim_end_char(
                cs@.subrange(x as int, y as int),
                c,
            ),
        decreases y,
    {
        assert(cs@.subrange(x as int, y as int).drop_last() =~= cs@.subrange(x as int, y - 1));
        y = y - 1;
    }
    (x, y)
}

/// The characters of `cs` in `a..b`.
pub fn slice_chars(cs: &Vec<char>, a: usize, b: usize) -> (v: Vec<char>)
    requires
        a <= b <= cs@.len(),
    ensures
        v@ == cs@.subrange(a as int, b as int),
{
    let mut v: Vec<char> = Vec::new();
    let mut k = a;
    while k < b
        invariant
            a <= k <= b <= cs@.len(),
            v@ == cs@.subrange(a as int, k as int),
        decreases b - k,
    {
        v.push(cs[k]);
        k = k + 1;
        assert(v@ =~= cs@.subrange(a as int, k as int));
    }
    v
}

/// `s` without white space at either end (`str::trim`).
pub fn trim_str(s: &str) -> (r: String)
    ensures
        r@ == trim_ws(s@),
{
    let cs = chars_of(s);
    assert(cs@.subrange(0, cs@.len() as int) =~= cs@);
    let (a, b) = trim_bounds(&cs, 0, cs.len(), true, ' ');
    string_from_chars(slice_chars(&cs, a, b).as_slice())
}

/// `s` without copies of `c` at either end (`str::trim_matches`).
pub fn trim_char_str(s: &str, c: char) -> (r: String)
    ensures
        r@ == trim_char(s@, c),
{
    let cs = chars_of(s);
    assert(cs@.subrange(0, cs@.len() as int) =~= cs@);
    let (a, b) = trim_bounds(&cs, 0, cs.len(), false, c);
    string_from_chars(slice_chars(&cs, a, b).as_slice())
}

// ---------------------------------------------------------------------------
// Splitting at a piece of text
// ---------------------------------------------------------------------------

/// The second of the pieces that `s` splits into at `pat`
/// (`s.split(pat).nth(1)`): what lies between the first and the second
/// occurrence of `pat`, or after the first one when there is no second.
pub open spec fn second_piece(s: Seq<char>, pat: Seq<char>) -> Option<Seq<char>> {
    match first_occurrence_from(s, pat, 0) {
        Some(k) => {
            let rest = s.skip(k + pat.len());
            match first_occurrence_from(rest, pat, 0) {
                Some(m) => Some(rest.take(m)),
                None => Some(rest),
            }
        },
        None => None,
    }
}

/// The second of the pieces that `s` splits into at `pat`, for a `pat` that
/// is not empty.
pub fn second_piece_of(s: &str, pat: &str) -> (r: Option<String>)
    requires
        pat@.len() > 0,
    ensures
        r matches Some(p) ==> second_piece(s@, pat@) == Some(p@),
        r is None ==> second_piece(s@, pat@) is None,
{
    let cs = chars_of(s);
    let ps = chars_of(pat);
    match find_from(&cs, &ps, 0) {
        Some(k) => {
            proof {
                lemma_first_occurrence(s@, pat@, 0);
                assert(occurs_at(cs@, ps@, k as int));
                assert(k + ps@.len() <= cs@.len());
                assert(cs@.len() == cs.len());
                assert(ps@.len() == ps.len());
            }
            let rest = slice_chars(&cs, k + ps.len(), cs.len());
            assert(rest@ =~= s@.skip(k + pat@.len()));
            match find_from(&rest, &ps, 0) {
                Some(m) => {
                    proof {
                        lemma_first_occurrence(rest@, pat@, 0);
                    }
                    let piece = slice_chars(&rest, 0, m);
                    assert(piece@ =~= rest@.take(m as int));
                    Some(string_from_chars(piece.as_slice()))
                },
                None => Some(string_from_chars(rest.as_slice())),
            }
        },
        None => None,
    }
}

} // verus!
