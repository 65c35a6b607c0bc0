//! Text as sequences of characters: searching, trimming, joining, escaping and
//! the order that dates are compared by.

use vstd::prelude::*;
use vstd::string::*;

verus! {

/// The characters that carry the Unicode property `White_Space`.
pub open spec fn is_white_space(c: char) -> bool {
    let u = c as u32;
    ||| 0x0009 <= u <= 0x000D
    ||| u == 0x0020
    ||| u == 0x0085
    ||| u == 0x00A0
    ||| u == 0x1680
    ||| 0x2000 <= u <= 0x200A
    ||| u == 0x2028
    ||| u == 0x2029
    ||| u == 0x202F
    ||| u == 0x205F
    ||| u == 0x3000
}

/// `char::is_whitespace` of std: true for exactly the characters that carry the
/// Unicode property `White_Space`.
pub assume_specification[ char::is_whitespace ](c: char) -> (r: bool)
    ensures
        r == is_white_space(c),
;

/// `String::push` of std: the character goes behind what is there.
pub assume_specification[ String::push ](s: &mut String, c: char)
    ensures
        final(s)@ == old(s)@.push(c),
;

/// `pattern` stands in `text` at `at`.
pub open spec fn occurs_at(text: Seq<char>, pattern: Seq<char>, at: int) -> bool {
    &&& 0 <= at
    &&& at + pattern.len() <= text.len()
    &&& text.subrange(at, at + pattern.len()) == pattern
}

/// `pattern` stands somewhere in `text`.
pub open spec fn holds(text: Seq<char>, pattern: Seq<char>) -> bool {
    exists|at: int| occurs_at(text, pattern, at)
}

/// The first place, at `from` or behind it, where `pattern` stands in `text`.
pub open spec fn find_from(text: Seq<char>, pattern: Seq<char>, from: int) -> Option<int>
    decreases text.len() - from + 1,
{
    if from < 0 || from + pattern.len() > text.len() {
        None
    } else if occurs_at(text, pattern, from) {
        Some(from)
    } else {
        find_from(text, pattern, from + 1)
    }
}

/// `find_from` yields the first occurrence, and nothing only where there is none.
pub proof fn lemma_find_from(text: Seq<char>, pattern: Seq<char>, from: int)
    requires
        0 <= from,
    ensures
        match find_from(text, pattern, from) {
            Some(at) => {
                &&& from <= at
                &&& occurs_at(text, pattern, at)
                &&& forall|j: int| from <= j < at ==> !occurs_at(text, pattern, j)
            },
            None => forall|j: int| from <= j ==> !occurs_at(text, pattern, j),
        },
    decreases text.len() - from + 1,
{
    if from + pattern.len() <= text.len() && !occurs_at(text, pattern, from) {
        lemma_find_from(text, pattern, from + 1);
    }
}

/// A first occurrence is what `find_from` yields.
pub proof fn lemma_find_from_is(text: Seq<char>, pattern: Seq<char>, from: int, at: int)
    requires
        0 <= from <= at,
        occurs_at(text, pattern, at),
        forall|j: int| from <= j < at ==> !occurs_at(text, pattern, j),
    ensures
        find_from(text, pattern, from) == Some(at),
{
    lemma_find_from(text, pattern, from);
}

/// The characters of `s`, one by one.
pub fn to_chars(s: &str) -> (r: Vec<char>)
    ensures
        r@ == s@,
{
    let mut out: Vec<char> = Vec::new();
    for c in it: s.chars()
        invariant
            it.seq() == s@,
            out@ == s@.take(it.index()),
    {
        out.push(c);
        assert(s@.take(it.index() + 1) =~= s@.take(it.index()).push(c));
    }
    assert(s@.take(s@.len() as int) =~= s@);
    out
}

/// The first place, at `from` or behind it, where `pattern` stands.
pub fn find_chars(text: &Vec<char>, pattern: &Vec<char>, from: usize) -> (r: Option<usize>)
    ensures
        match r {
            Some(at) => find_from(text@, pattern@, from as int) == Some(at as int),
            None => find_from(text@, pattern@, from as int) is None,
        },
{
    let n: usize = text.len();
    let m: usize = pattern.len();
    let mut i: usize = from;
    while i <= n && m <= n - i
        invariant
            n == text@.len(),
            m == pattern@.len(),
            from <= i,
            find_from(text@, pattern@, from as int) == find_from(text@, pattern@, i as int),
        decreases n - i,
    {
        let mut k: usize = 0;
        while k < m && text[i + k] == pattern[k]
            invariant
                n == text@.len(),
                m == pattern@.len(),
                i + m <= n,
                k <= m,
                forall|j: int| 0 <= j < k ==> text@[i + j] == pattern@[j],
            decreases m - k,
        {
            k = k + 1;
        }
        if k == m {
            assert(text@.subrange(i as int, i + m) =~= pattern@);
            return Some(i);
        }
        assert(text@.subrange(i as int, i + m)[k as int] != pattern@[k as int]);
        if i == n {
            return None;
        }
        i = i + 1;
    }
    None
}

/// True where `pattern` stands somewhere in `text`.
pub fn contains(text: &str, pattern: &str) -> (r: bool)
    ensures
        r == holds(text@, pattern@),
{
    proof {
        lemma_find_from(text@, pattern@, 0);
    }
    find_chars(&to_chars(text), &to_chars(pattern), 0).is_some()
}

/// True where the two texts have the same characters.
pub fn same_text(a: &str, b: &str) -> (r: bool)
    ensures
        r == (a@ == b@),
{
    a.to_owned() == b.to_owned()
}

/// `text` without the white space that it starts with.
pub open spec fn trimmed_start(text: Seq<char>) -> Seq<char>
    decreases text.len(),
{
    if text.len() > 0 && is_white_space(text[0]) {
        trimmed_start(text.drop_first())
    } else {
        text
    }
}

/// `text` without the white space that it ends with.
pub open spec fn trimmed_end(text: Seq<char>) -> Seq<char>
    decreases text.len(),
{
    if text.len() > 0 && is_white_space(text.last()) {
        trimmed_end(text.drop_last())
    } else {
        text
    }
}

/// `text` without the white space at either end.
pub open spec fn trimmed(text: Seq<char>) -> Seq<char> {
    trimmed_end(trimmed_start(text))
}

/// Where the text behind leading white space begins.
fn leading_end(cs: &Vec<char>) -> (r: usize)
    ensures
        r <= cs@.len(),
        trimmed_start(cs@) == cs@.skip(r as int),
{
    let mut i: usize = 0;
    assert(cs@.skip(0) =~= cs@);
    while i < cs.len() && cs[i].is_whitespace()
        invariant
            i <= cs@.len(),
            trimmed_start(cs@) == trimmed_start(cs@.skip(i as int)),
        decreases cs@.len() - i,
    {
        assert(cs@.skip(i as int).drop_first() =~= cs@.skip(i + 1));
        i = i + 1;
    }
    i
}

/// The first character that is no white space.
pub fn first_visible(text: &str) -> (r: Option<char>)
    ensures
        r == (if trimmed_start(text@).len() > 0 {
            Some(trimmed_start(text@)[0])
        } else {
            None
        }),
{
    let cs: Vec<char> = to_chars(text);
    let a: usize = leading_end(&cs);
    if a < cs.len() {
        Some(cs[a])
    } else {
        None
    }
}

/// `text` without the white space at either end.
pub fn trim(text: &str) -> (r: String)
    ensures
        r@ == trimmed(text@),
{
    let cs: Vec<char> = to_chars(text);
    let a: usize = leading_end(&cs);
    let mut b: usize = cs.len();
    assert(cs@.subrange(a as int, b as int) =~= cs@.skip(a as int));
    while b > a && cs[b - 1].is_whitespace()
        invariant
            a <= b <= cs@.len(),
            trimmed(cs@) == trimmed_end(cs@.subrange(a as int, b as int)),
        decreases b,
    {
        assert(cs@.subrange(a as int, b as int).drop_last() =~= cs@.subrange(a as int, b - 1));
        b = b - 1;
    }
    text.substring_char(a, b).to_owned()
}

/// Trimmed text neither starts nor ends with white space, and lies in the text
/// with nothing but white space around it.
pub proof fn law_trimmed(text: Seq<char>)
    ensures
        trimmed(text).len() > 0 ==> !is_white_space(trimmed(text)[0]) && !is_white_space(
            trimmed(text).last(),
        ),
        exists|before: Seq<char>, after: Seq<char>|
            #![trigger before + trimmed(text) + after]
            text == before + trimmed(text) + after && all_white(before) && all_white(after),
{
    let t = trimmed_start(text);
    lemma_trimmed_start(text);
    lemma_trimmed_end(t);
    let before = text.take(text.len() - t.len());
    let after = t.skip(trimmed(text).len() as int);
    assert(text =~= before + trimmed(text) + after);
}

/// Trimming trimmed text changes nothing.
pub proof fn law_trimmed_twice(text: Seq<char>)
    ensures
        trimmed(trimmed(text)) == trimmed(text),
{
    law_trimmed(text);
}

/// White space put around a text is what trimming takes off, where the text does
/// not start or end with white space itself.
pub proof fn law_trimmed_of_padded(before: Seq<char>, core: Seq<char>, after: Seq<char>)
    requires
        all_white(before),
        all_white(after),
        core.len() > 0,
        !is_white_space(core[0]),
        !is_white_space(core.last()),
    ensures
        trimmed(before + core + after) == core,
{
    let whole = before + core + after;
    lemma_skip_front(before, core + after);
    assert(whole =~= before + (core + after));
    assert((core + after)[0] == core[0]);
    lemma_skip_back(core, after);
}

/// Text of white space alone is trimmed to nothing.
pub proof fn law_trimmed_of_white(text: Seq<char>)
    requires
        all_white(text),
    ensures
        trimmed(text) == Seq::<char>::empty(),
{
    lemma_skip_front(text, Seq::empty());
    assert(text + Seq::<char>::empty() =~= text);
}

proof fn lemma_skip_front(before: Seq<char>, rest: Seq<char>)
    requires
        all_white(before),
    ensures
        trimmed_start(before + rest) == trimmed_start(rest),
    decreases before.len(),
{
    if before.len() == 0 {
        assert(before + rest =~= rest);
    } else {
        assert(is_white_space(before[0]));
        assert((before + rest).drop_first() =~= before.drop_first() + rest);
        assert forall|i: int| 0 <= i < before.drop_first().len() implies is_white_space(
            #[trigger] before.drop_first()[i],
        ) by {
            assert(before.drop_first()[i] == before[i + 1]);
        }
        lemma_skip_front(before.drop_first(), rest);
    }
}

proof fn lemma_skip_back(rest: Seq<char>, after: Seq<char>)
    requires
        all_white(after),
    ensures
        trimmed_end(rest + after) == trimmed_end(rest),
    decreases after.len(),
{
    if after.len() == 0 {
        assert(rest + after =~= rest);
    } else {
        assert(is_white_space(after.last()));
        assert((rest + after).drop_last() =~= rest + after.drop_last());
        lemma_skip_back(rest, after.drop_last());
    }
}

/// Every character is white space.
pub open spec fn all_white(text: Seq<char>) -> bool {
    forall|i: int| 0 <= i < text.len() ==> is_white_space(#[trigger] text[i])
}

proof fn lemma_trimmed_start(text: Seq<char>)
    ensures
        trimmed_start(text).len() <= text.len(),
        trimmed_start(text) == text.skip(text.len() - trimmed_start(text).len()),
        all_white(text.take(text.len() - trimmed_start(text).len())),
        trimmed_start(text).len() > 0 ==> !is_white_space(trimmed_start(text)[0]),
    decreases text.len(),
{
    if text.len() > 0 && is_white_space(text[0]) {
        let rest = text.drop_first();
        lemma_trimmed_start(rest);
        let n = trimmed_start(rest).len();
        assert(rest.skip(rest.len() - n) =~= text.skip(text.len() - n));
        assert forall|i: int| 0 <= i < text.len() - n implies is_white_space(
            #[trigger] text.take(text.len() - n)[i],
        ) by {
            if i > 0 {
                assert(rest.take(rest.len() - n)[i - 1] == text[i]);
            }
        }
    } else {
        assert(text.skip(0) =~= text);
    }
}

proof fn lemma_trimmed_end(text: Seq<char>)
    ensures
        trimmed_end(text).len() <= text.len(),
        trimmed_end(text) == text.take(trimmed_end(text).len() as int),
        all_white(text.skip(trimmed_end(text).len() as int)),
        trimmed_end(text).len() > 0 ==> !is_white_space(trimmed_end(text).last()),
    decreases text.len(),
{
    if text.len() > 0 && is_white_space(text.last()) {
        let rest = text.drop_last();
        lemma_trimmed_end(rest);
        let n = trimmed_end(rest).len() as int;
        assert(rest.take(n) =~= text.take(n));
        assert forall|i: int| 0 <= i < text.len() - n implies is_white_space(
            #[trigger] text.skip(n)[i],
        ) by {
            if i < rest.len() - n {
                assert(rest.skip(n)[i] == text[n + i]);
            }
        }
    } else {
        assert(text.take(text.len() as int) =~= text);
    }
}

/// How many characters pass before the first white space.
pub open spec fn word_len(text: Seq<char>) -> int
    decreases text.len(),
{
    if text.len() == 0 || is_white_space(text[0]) {
        0
    } else {
        1 + word_len(text.drop_first())
    }
}

/// The longest pieces of `text` that hold no white space, in order.
pub open spec fn words(text: Seq<char>) -> Seq<Seq<char>>
    decreases text.len(),
    via words_decreases
{
    let t = trimmed_start(text);
    if t.len() == 0 {
        Seq::empty()
    } else {
        seq![t.take(word_len(t))] + words(t.skip(word_len(t)))
    }
}

#[via_fn]
proof fn words_decreases(text: Seq<char>) {
    lemma_trimmed_start(text);
    lemma_word_len(trimmed_start(text));
}

proof fn lemma_word_len(text: Seq<char>)
    ensures
        0 <= word_len(text) <= text.len(),
        text.len() > 0 && !is_white_space(text[0]) ==> word_len(text) > 0,
        word_len(text) < text.len() ==> is_white_space(text[word_len(text)]),
        forall|i: int| 0 <= i < word_len(text) ==> !is_white_space(#[trigger] text[i]),
    decreases text.len(),
{
    if text.len() > 0 && !is_white_space(text[0]) {
        let rest = text.drop_first();
        lemma_word_len(rest);
        assert forall|i: int| 0 <= i < word_len(text) implies !is_white_space(
            #[trigger] text[i],
        ) by {
            if i > 0 {
                assert(rest[i - 1] == text[i]);
            }
        }
    }
}

proof fn lemma_word_len_is(text: Seq<char>, n: int)
    requires
        0 <= n <= text.len(),
        forall|i: int| 0 <= i < n ==> !is_white_space(#[trigger] text[i]),
        n < text.len() ==> is_white_space(text[n]),
    ensures
        word_len(text) == n,
    decreases n,
{
    if n > 0 {
        lemma_word_len_is(text.drop_first(), n - 1);
    }
}

/// The pieces, with one space between each two of them.
pub open spec fn spaced(pieces: Seq<Seq<char>>) -> Seq<char>
    decreases pieces.len(),
{
    if pieces.len() == 0 {
        Seq::empty()
    } else if pieces.len() == 1 {
        pieces[0]
    } else {
        spaced(pieces.drop_last()) + seq![' '] + pieces.last()
    }
}

/// `text` with every run of white space made one space, and none at the ends.
pub open spec fn squeezed(text: Seq<char>) -> Seq<char> {
    spaced(words(text))
}

/// `text` with every run of white space made one space, and none at the ends.
pub fn squeeze(text: &str) -> (r: String)
    ensures
        r@ == squeezed(text@),
{
    let cs: Vec<char> = to_chars(text);
    let n: usize = cs.len();
    let mut out: String = String::new();
    let mut first: bool = true;
    let mut i: usize = 0;
    let ghost mut done: Seq<Seq<char>> = Seq::empty();
    assert(cs@.skip(0) =~= cs@);
    assert(done + words(cs@) =~= words(cs@));
    while i < n
        invariant
            n == cs@.len(),
            i <= n,
            words(cs@) == done + words(cs@.skip(i as int)),
            out@ == spaced(done),
            first == (done.len() == 0),
        decreases n - i,
    {
        let ghost at = cs@.skip(i as int);
        if cs[i].is_whitespace() {
            assert(at.drop_first() =~= cs@.skip(i + 1));
            assert(words(at) == words(cs@.skip(i + 1)));
            i = i + 1;
        } else {
            if !first {
                out.push(' ');
            }
            let start: usize = i;
            let ghost before = out@;
            while i < n && !cs[i].is_whitespace()
                invariant
                    n == cs@.len(),
                    start <= i <= n,
                    at == cs@.skip(start as int),
                    out@ == before + cs@.subrange(start as int, i as int),
                    forall|k: int| 0 <= k < i - start ==> !is_white_space(#[trigger] at[k]),
                decreases n - i,
            {
                out.push(cs[i]);
                assert(cs@.subrange(start as int, i + 1) =~= cs@.subrange(
                    start as int,
                    i as int,
                ).push(cs@[i as int]));
                i = i + 1;
            }
            first = false;
            proof {
                let k = i - start;
                assert(at[0] == cs@[start as int]);
                lemma_word_len_is(at, k);
                assert(trimmed_start(at) == at);
                let word = at.take(k);
                assert(word =~= cs@.subrange(start as int, i as int));
                assert(at.skip(k) =~= cs@.skip(i as int));
                let next = done.push(word);
                assert(done + words(at) =~= next + words(cs@.skip(i as int)));
                assert(next.drop_last() =~= done);
                done = next;
            }
        }
    }
    assert(words(cs@.skip(n as int)) =~= Seq::<Seq<char>>::empty());
    assert(done + words(cs@.skip(n as int)) =~= done);
    out
}

/// No piece is empty and no piece holds white space.
pub proof fn law_words(text: Seq<char>)
    ensures
        forall|i: int, j: int|
            0 <= i < words(text).len() && 0 <= j < words(text)[i].len() ==> !is_white_space(
                #[trigger] words(text)[i][j],
            ),
        forall|i: int| 0 <= i < words(text).len() ==> #[trigger] words(text)[i].len() > 0,
    decreases text.len(),
{
    let t = trimmed_start(text);
    lemma_trimmed_start(text);
    lemma_word_len(t);
    if t.len() > 0 {
        let rest = t.skip(word_len(t));
        law_words(rest);
        assert forall|i: int| 0 <= i < words(text).len() implies #[trigger] words(text)[i].len()
            > 0 by {
            if i > 0 {
                assert(words(text)[i] == words(rest)[i - 1]);
            }
        }
        assert forall|i: int, j: int|
            0 <= i < words(text).len() && 0 <= j < words(text)[i].len() implies !is_white_space(
            #[trigger] words(text)[i][j],
        ) by {
            if i > 0 {
                assert(words(text)[i] == words(rest)[i - 1]);
            }
        }
    }
}

/// A character as it stands in a query value: `:`, `/`, `?`, `=` and `&` by their
/// percent codes, every other one as it is.
pub open spec fn query_char(c: char) -> Seq<char> {
    if c == ':' {
        "%3A"@
    } else if c == '/' {
        "%2F"@
    } else if c == '?' {
        "%3F"@
    } else if c == '=' {
        "%3D"@
    } else if c == '&' {
        "%26"@
    } else {
        seq![c]
    }
}

/// `text` with each character written by `query_char`.
pub open spec fn query_encoded(text: Seq<char>) -> Seq<char>
    decreases text.len(),
{
    if text.len() == 0 {
        Seq::empty()
    } else {
        query_encoded(text.drop_last()) + query_char(text.last())
    }
}

/// Writes `s` as a query value: `:`, `/`, `?`, `=` and `&` by their percent codes.
pub fn url_encode(s: &str) -> (r: String)
    ensures
        r@ == query_encoded(s@),
{
    let cs: Vec<char> = to_chars(s);
    let mut out: String = String::new();
    let mut i: usize = 0;
    while i < cs.len()
        invariant
            i <= cs@.len(),
            out@ == query_encoded(cs@.take(i as int)),
        decreases cs@.len() - i,
    {
        let c: char = cs[i];
        if c == ':' {
            out.append("%3A");
        } else if c == '/' {
            out.append("%2F");
        } else if c == '?' {
            out.append("%3F");
        } else if c == '=' {
            out.append("%3D");
        } else if c == '&' {
            out.append("%26");
        } else {
            out.push(c);
        }
        assert(cs@.take(i + 1).drop_last() =~= cs@.take(i as int));
        assert(out@ =~= query_encoded(cs@.take(i as int)) + query_char(c));
        i = i + 1;
    }
    assert(cs@.take(cs@.len() as int) =~= cs@);
    out
}

/// The characters that part a URL into its pieces.
pub open spec fn is_url_separator(c: char) -> bool {
    c == ':' || c == '/' || c == '?' || c == '=' || c == '&'
}

/// An encoded query value holds none of the characters that part a URL.
pub proof fn law_query_encoded_is_opaque(text: Seq<char>)
    ensures
        forall|i: int|
            0 <= i < query_encoded(text).len() ==> !is_url_separator(
                #[trigger] query_encoded(text)[i],
            ),
    decreases text.len(),
{
    if text.len() > 0 {
        law_query_encoded_is_opaque(text.drop_last());
        reveal_strlit("%3A");
        reveal_strlit("%2F");
        reveal_strlit("%3F");
        reveal_strlit("%3D");
        reveal_strlit("%26");
        let a = query_encoded(text.drop_last());
        let b = query_char(text.last());
        assert forall|i: int| 0 <= i < (a + b).len() implies !is_url_separator(
            #[trigger] (a + b)[i],
        ) by {
            if i >= a.len() {
                assert((a + b)[i] == b[i - a.len()]);
            }
        }
    }
}

/// Encoding goes piece by piece: the code of a text is the codes of its parts.
pub proof fn law_query_encoded_splits(a: Seq<char>, b: Seq<char>)
    ensures
        query_encoded(a + b) == query_encoded(a) + query_encoded(b),
    decreases b.len(),
{
    if b.len() == 0 {
        assert(a + b =~= a);
        assert(query_encoded(a) + query_encoded(b) =~= query_encoded(a));
    } else {
        assert((a + b).drop_last() =~= a + b.drop_last());
        law_query_encoded_splits(a, b.drop_last());
        assert(query_encoded(a + b) =~= query_encoded(a) + query_encoded(b));
    }
}

/// `a` stands before `b` in the order of their characters' codes: at the first
/// place where they differ, or because `a` ends there.
pub open spec fn precedes(a: Seq<char>, b: Seq<char>) -> bool
    decreases a.len(),
{
    if b.len() == 0 {
        false
    } else if a.len() == 0 {
        true
    } else if a[0] != b[0] {
        a[0] < b[0]
    } else {
        precedes(a.drop_first(), b.drop_first())
    }
}

/// True where `a` stands before `b`.
pub fn text_precedes(a: &str, b: &str) -> (r: bool)
    ensures
        r == precedes(a@, b@),
{
    let x: Vec<char> = to_chars(a);
    let y: Vec<char> = to_chars(b);
    let mut i: usize = 0;
    assert(x@.skip(0) =~= x@);
    assert(y@.skip(0) =~= y@);
    while i < x.len() && i < y.len()
        invariant
            x@ == a@,
            y@ == b@,
            i <= x@.len(),
            i <= y@.len(),
            precedes(x@, y@) == precedes(x@.skip(i as int), y@.skip(i as int)),
        decreases x@.len() - i,
    {
        assert(x@.skip(i as int)[0] == x@[i as int]);
        assert(y@.skip(i as int)[0] == y@[i as int]);
        if x[i] != y[i] {
            return x[i] < y[i];
        }
        assert(x@.skip(i as int).drop_first() =~= x@.skip(i + 1));
        assert(y@.skip(i as int).drop_first() =~= y@.skip(i + 1));
        i = i + 1;
    }
    i < y.len()
}

/// The order is strict and total: of two texts exactly one stands before the
/// other, unless they are the same, and the order carries over.
pub proof fn law_precedes_is_strict_total_order(a: Seq<char>, b: Seq<char>, c: Seq<char>)
    ensures
        !precedes(a, a),
        precedes(a, b) ==> !precedes(b, a),
        a == b || precedes(a, b) || precedes(b, a),
        precedes(a, b) && precedes(b, c) ==> precedes(a, c),
    decreases a.len(),
{
    if a.len() > 0 {
        law_precedes_is_strict_total_order(
            a.drop_first(),
            if b.len() > 0 {
                b.drop_first()
            } else {
                b
            },
            if c.len() > 0 {
                c.drop_first()
            } else {
                c
            },
        );
        if b.len() > 0 && a[0] == b[0] && a.drop_first() == b.drop_first() {
            assert(a =~= seq![a[0]] + a.drop_first());
            assert(b =~= seq![b[0]] + b.drop_first());
        }
    } else if b.len() == 0 {
        assert(a =~= b);
    }
}

/// The characters of an optional text.
pub open spec fn opt_view(text: Option<String>) -> Option<Seq<char>> {
    match text {
        Some(t) => Some(t@),
        None => None,
    }
}

/// The characters of an optional borrowed text.
pub open spec fn opt_str_view(text: Option<&str>) -> Option<Seq<char>> {
    match text {
        Some(t) => Some(t@),
        None => None,
    }
}

/// A copy of an optional text.
pub fn copy_opt(text: &Option<String>) -> (r: Option<String>)
    ensures
        opt_view(r) == opt_view(*text),
{
    match text {
        Some(t) => Some(t.clone()),
        None => None,
    }
}

/// True where both are absent, or both are there with the same characters.
pub fn same_opt(a: &Option<String>, b: &Option<String>) -> (r: bool)
    ensures
        r == (opt_view(*a) == opt_view(*b)),
{
    match (a, b) {
        (Some(x), Some(y)) => same_text(x.as_str(), y.as_str()),
        (None, None) => true,
        _ => false,
    }
}

/// Squeezed text has no white space at its ends.
pub proof fn law_squeezed_is_trimmed(text: Seq<char>)
    ensures
        trimmed(squeezed(text)) == squeezed(text),
{
    law_words(text);
    let ws = words(text);
    lemma_spaced_ends(ws);
    let s = spaced(ws);
    let nothing = Seq::<char>::empty();
    if ws.len() > 0 {
        assert(!is_white_space(ws[0][0]));
        assert(!is_white_space(ws.last()[ws.last().len() - 1]));
        assert(nothing + s + nothing =~= s);
        law_trimmed_of_padded(nothing, s, nothing);
    }
}

proof fn lemma_spaced_ends(pieces: Seq<Seq<char>>)
    requires
        forall|i: int| 0 <= i < pieces.len() ==> #[trigger] pieces[i].len() > 0,
    ensures
        pieces.len() > 0 ==> spaced(pieces).len() > 0 && spaced(pieces)[0] == pieces[0][0]
            && spaced(pieces).last() == pieces.last().last(),
    decreases pieces.len(),
{
    if pieces.len() > 1 {
        let front = pieces.drop_last();
        assert forall|i: int| 0 <= i < front.len() implies #[trigger] front[i].len() > 0 by {
            assert(front[i] == pieces[i]);
        }
        lemma_spaced_ends(front);
        assert(pieces.last() == pieces[pieces.len() - 1]);
    }
}

// ── what the operations come to ─────────────────────────────────────────────
/// A pattern stands in a text exactly where the text is the pattern with something,
/// or nothing, in front of it and behind it.
pub proof fn law_holds_is_standing_inside(text: Seq<char>, pattern: Seq<char>)
    ensures
        holds(text, pattern) <==> exists|before: Seq<char>, after: Seq<char>|
            text == #[trigger] (before + pattern + after),
{
    if holds(text, pattern) {
        let at = choose|at: int| occurs_at(text, pattern, at);
        let before = text.take(at);
        let after = text.skip(at + pattern.len());
        assert(text =~= before + pattern + after);
    }
    if exists|before: Seq<char>, after: Seq<char>| text == #[trigger] (before + pattern + after) {
        let (before, after) = choose|before: Seq<char>, after: Seq<char>|
            text == #[trigger] (before + pattern + after);
        let at = before.len() as int;
        assert(text.subrange(at, at + pattern.len()) =~= pattern);
        assert(occurs_at(text, pattern, at));
    }
}

/// Searching yields the first place from `from` on where the characters are those
/// of the pattern, and nothing only where there is no such place.
pub proof fn law_find_from_is_first(text: Seq<char>, pattern: Seq<char>, from: int)
    requires
        0 <= from,
    ensures
        match find_from(text, pattern, from) {
            Some(at) => {
                &&& from <= at
                &&& at + pattern.len() <= text.len()
                &&& text.subrange(at, at + pattern.len()) == pattern
                &&& forall|j: int|
                    from <= j < at ==> #[trigger] text.subrange(j, j + pattern.len()) != pattern
            },
            None => forall|j: int|
                from <= j && j + pattern.len() <= text.len() ==> #[trigger] text.subrange(
                    j,
                    j + pattern.len(),
                ) != pattern,
        },
{
    lemma_find_from(text, pattern, from);
    match find_from(text, pattern, from) {
        Some(at) => {
            assert forall|j: int| from <= j < at implies #[trigger] text.subrange(
                j,
                j + pattern.len(),
            ) != pattern by {
                assert(!occurs_at(text, pattern, j));
            }
        },
        None => {
            assert forall|j: int| from <= j && j + pattern.len() <= text.len() implies
                #[trigger] text.subrange(j, j + pattern.len()) != pattern by {
                assert(!occurs_at(text, pattern, j));
            }
        },
    }
}

/// The pattern that a text is cut at: of a text, a pattern and a further text in a
/// row, the place found is behind the first one, where the pattern stands nowhere
/// before.
pub proof fn law_find_from_finds_what_was_put(
    before: Seq<char>,
    pattern: Seq<char>,
    after: Seq<char>,
)
    requires
        forall|j: int|
            0 <= j < before.len() ==> #[trigger] (before + pattern + after).subrange(
                j,
                j + pattern.len(),
            ) != pattern,
    ensures
        find_from(before + pattern + after, pattern, 0) == Some(before.len() as int),
{
    let whole = before + pattern + after;
    let at = before.len() as int;
    assert(whole.subrange(at, at + pattern.len()) =~= pattern);
    law_find_from_is_first(whole, pattern, 0);
}

/// What is left behind leading white space starts with no white space, and nothing
/// but white space was taken off in front of it.
pub proof fn law_trimmed_start_is_exact(text: Seq<char>)
    ensures
        trimmed_start(text).len() <= text.len(),
        trimmed_start(text) == text.skip(text.len() - trimmed_start(text).len()),
        forall|i: int|
            0 <= i < text.len() - trimmed_start(text).len() ==> is_white_space(#[trigger] text[i]),
        trimmed_start(text).len() > 0 ==> !is_white_space(trimmed_start(text)[0]),
{
    lemma_trimmed_start(text);
    let n = text.len() - trimmed_start(text).len();
    assert forall|i: int| 0 <= i < n implies is_white_space(#[trigger] text[i]) by {
        assert(text.take(n)[i] == text[i]);
    }
}

/// Trimmed text is a piece of the text, with white space alone in front of it and
/// behind it, and none at its ends; it is empty only where all is white space.
pub proof fn law_trimmed_is_exact(text: Seq<char>)
    ensures
        exists|a: int, b: int|
            0 <= a <= b <= text.len() && trimmed(text) == #[trigger] text.subrange(a, b) && (forall|
                i: int,
            |
                0 <= i < a || b <= i < text.len() ==> is_white_space(#[trigger] text[i])) && (a < b
                ==> !is_white_space(text[a]) && !is_white_space(text[b - 1])),
{
    let t = trimmed_start(text);
    lemma_trimmed_start(text);
    lemma_trimmed_end(t);
    let a = text.len() - t.len();
    let b = a + trimmed(text).len();
    assert(trimmed(text) =~= text.subrange(a, b));
    assert forall|i: int| 0 <= i < a || b <= i < text.len() implies is_white_space(
        #[trigger] text[i],
    ) by {
        if i < a {
            assert(text.take(a)[i] == text[i]);
        } else {
            assert(t.skip(trimmed(text).len() as int)[i - b] == text[i]);
        }
    }
    if a < b {
        assert(trimmed(text)[0] == text[a]);
        assert(trimmed(text).last() == text[b - 1]);
        law_trimmed(text);
    }
}

/// A text without white space is left as it is by squeezing.
pub proof fn law_squeezed_of_word(text: Seq<char>)
    requires
        forall|i: int| 0 <= i < text.len() ==> !is_white_space(#[trigger] text[i]),
    ensures
        squeezed(text) == text,
{
    if text.len() > 0 {
        assert(!is_white_space(text[0]));
        lemma_word_len_is(text, text.len() as int);
        assert(text.take(text.len() as int) =~= text);
        let rest = text.skip(text.len() as int);
        assert(rest =~= Seq::<char>::empty());
        assert(words(rest) =~= Seq::<Seq<char>>::empty());
        assert(words(text) =~= seq![text]);
    } else {
        assert(squeezed(text) =~= text);
    }
}

proof fn lemma_words_of_start(a: Seq<char>, b: Seq<char>)
    requires
        trimmed_start(a) == trimmed_start(b),
    ensures
        words(a) == words(b),
{
}

proof fn lemma_words_split(a: Seq<char>, gap: Seq<char>, b: Seq<char>)
    requires
        gap.len() > 0,
        forall|i: int| 0 <= i < gap.len() ==> is_white_space(#[trigger] gap[i]),
    ensures
        words(a + gap + b) == words(a) + words(b),
    decreases a.len(),
{
    let t = trimmed_start(a);
    lemma_trimmed_start(a);
    let white = a.take(a.len() - t.len());
    if t.len() == 0 {
        let front = a + gap;
        assert forall|i: int| 0 <= i < front.len() implies is_white_space(#[trigger] front[i]) by {
            if i < a.len() {
                assert(white[i] == a[i]);
            } else {
                assert(front[i] == gap[i - a.len()]);
            }
        }
        lemma_skip_front(front, b);
        assert(a + gap + b =~= front + b);
        lemma_words_of_start(a + gap + b, b);
        assert(words(a) + words(b) =~= words(b));
    } else {
        let whole = t + gap + b;
        assert(a + gap + b =~= white + whole);
        lemma_skip_front(white, whole);
        assert(whole[0] == t[0]);
        assert(trimmed_start(whole) == whole);
        lemma_word_len(t);
        let k = word_len(t);
        assert forall|i: int| 0 <= i < k implies !is_white_space(#[trigger] whole[i]) by {
            assert(whole[i] == t[i]);
        }
        if k < t.len() {
            assert(whole[k] == t[k]);
        } else {
            assert(whole[k] == gap[0]);
            assert(is_white_space(gap[0]));
        }
        lemma_word_len_is(whole, k);
        assert(whole.take(k) =~= t.take(k));
        assert(whole.skip(k) =~= t.skip(k) + gap + b);
        lemma_words_split(t.skip(k), gap, b);
        assert(words(a + gap + b) == seq![t.take(k)] + words(t.skip(k) + gap + b));
        assert(words(a) + words(b) =~= seq![t.take(k)] + (words(t.skip(k)) + words(b)));
    }
}

proof fn lemma_spaced_splits(p: Seq<Seq<char>>, q: Seq<Seq<char>>)
    requires
        p.len() > 0,
        q.len() > 0,
    ensures
        spaced(p + q) == spaced(p) + seq![' '] + spaced(q),
    decreases q.len(),
{
    let all = p + q;
    assert(all.last() == q.last());
    if q.len() == 1 {
        assert(all.drop_last() =~= p);
    } else {
        assert(all.drop_last() =~= p + q.drop_last());
        lemma_spaced_splits(p, q.drop_last());
        assert(spaced(all) =~= spaced(p) + seq![' '] + spaced(q));
    }
}

/// Squeezing goes piece by piece: of two texts with white space between them, it
/// leaves what it leaves of each, with one space between, and no space where one of
/// them has nothing to show.
pub proof fn law_squeezed_splits(a: Seq<char>, gap: Seq<char>, b: Seq<char>)
    requires
        gap.len() > 0,
        forall|i: int| 0 <= i < gap.len() ==> is_white_space(#[trigger] gap[i]),
    ensures
        squeezed(a + gap + b) == (if squeezed(a).len() == 0 {
            squeezed(b)
        } else if squeezed(b).len() == 0 {
            squeezed(a)
        } else {
            squeezed(a) + seq![' '] + squeezed(b)
        }),
{
    lemma_words_split(a, gap, b);
    law_words(a);
    law_words(b);
    lemma_spaced_ends(words(a));
    lemma_spaced_ends(words(b));
    if words(a).len() == 0 {
        assert(words(a) + words(b) =~= words(b));
    } else if words(b).len() == 0 {
        assert(words(a) + words(b) =~= words(a));
    } else {
        lemma_spaced_splits(words(a), words(b));
    }
}

/// Each of `:`, `/`, `?`, `=` and `&` is encoded by its percent code, and every
/// other character as itself.
pub proof fn law_query_encoded_of_char(c: char)
    ensures
        query_encoded(seq![c]) == (if c == ':' {
            seq!['%', '3', 'A']
        } else if c == '/' {
            seq!['%', '2', 'F']
        } else if c == '?' {
            seq!['%', '3', 'F']
        } else if c == '=' {
            seq!['%', '3', 'D']
        } else if c == '&' {
            seq!['%', '2', '6']
        } else {
            seq![c]
        }),
{
    reveal_strlit("%3A");
    reveal_strlit("%2F");
    reveal_strlit("%3F");
    reveal_strlit("%3D");
    reveal_strlit("%26");
    let one = seq![c];
    assert(one.drop_last() =~= Seq::<char>::empty());
    assert(query_encoded(one.drop_last()) =~= Seq::<char>::empty());
    assert(query_encoded(one) =~= query_char(c));
    assert("%3A"@ =~= seq!['%', '3', 'A']);
    assert("%2F"@ =~= seq!['%', '2', 'F']);
    assert("%3F"@ =~= seq!['%', '3', 'F']);
    assert("%3D"@ =~= seq!['%', '3', 'D']);
    assert("%26"@ =~= seq!['%', '2', '6']);
}

/// At the first place where two texts differ, the lower character stands in the
/// text that comes first.
pub proof fn law_first_difference_decides(a: Seq<char>, b: Seq<char>, k: int)
    requires
        0 <= k < a.len(),
        k < b.len(),
        forall|i: int| 0 <= i < k ==> a[i] == b[i],
        a[k] != b[k],
    ensures
        precedes(a, b) <==> a[k] < b[k],
    decreases k,
{
    if k > 0 {
        assert(a[0] == b[0]);
        let x = a.drop_first();
        let y = b.drop_first();
        assert forall|i: int| 0 <= i < k - 1 implies x[i] == y[i] by {
            assert(a[i + 1] == b[i + 1]);
        }
        law_first_difference_decides(x, y, k - 1);
    }
}

/// A text comes before what is longer and starts with it.
pub proof fn law_start_comes_first(a: Seq<char>, rest: Seq<char>)
    ensures
        precedes(a, a + rest) <==> rest.len() > 0,
        !precedes(a + rest, a),
    decreases a.len(),
{
    if a.len() > 0 {
        assert((a + rest).drop_first() =~= a.drop_first() + rest);
        law_start_comes_first(a.drop_first(), rest);
    } else {
        assert(a + rest =~= rest);
    }
}

/// An optional text is there or not as its characters are.
pub proof fn law_optional_text_shows(t: String, s: &str)
    ensures
        opt_view(Some(t)) == Some(t@),
        opt_view(None) is None,
        opt_str_view(Some(s)) == Some(s@),
        opt_str_view(None) is None,
{
}

/// White space around a text does not count where it is trimmed.
pub proof fn law_padding_does_not_count(before: Seq<char>, text: Seq<char>, after: Seq<char>)
    requires
        forall|i: int| 0 <= i < before.len() ==> is_white_space(#[trigger] before[i]),
        forall|i: int| 0 <= i < after.len() ==> is_white_space(#[trigger] after[i]),
    ensures
        trimmed(before + text + after) == trimmed(text),
{
    law_trimmed_is_exact(text);
    let t = trimmed(text);
    let (a, b) = choose|a: int, b: int|
        0 <= a <= b <= text.len() && t == #[trigger] text.subrange(a, b) && (forall|i: int|
            0 <= i < a || b <= i < text.len() ==> is_white_space(#[trigger] text[i])) && (a < b
            ==> !is_white_space(text[a]) && !is_white_space(text[b - 1]));
    let whole = before + text + after;
    if a < b {
        let x = before + text.take(a);
        let y = text.skip(b) + after;
        assert(whole =~= x + t + y);
        assert forall|i: int| 0 <= i < x.len() implies is_white_space(#[trigger] x[i]) by {
            if i >= before.len() {
                assert(x[i] == text[i - before.len()]);
            } else {
                assert(x[i] == before[i]);
            }
        }
        assert forall|i: int| 0 <= i < y.len() implies is_white_space(#[trigger] y[i]) by {
            if i < text.len() - b {
                assert(y[i] == text[b + i]);
            } else {
                assert(y[i] == after[i - (text.len() - b)]);
            }
        }
        assert(t[0] == text[a]);
        assert(t.last() == text[b - 1]);
        law_trimmed_of_padded(x, t, y);
    } else {
        assert forall|i: int| 0 <= i < whole.len() implies is_white_space(#[trigger] whole[i]) by {
            if i < before.len() {
                assert(whole[i] == before[i]);
            } else if i < before.len() + text.len() {
                assert(whole[i] == text[i - before.len()]);
            } else {
                assert(whole[i] == after[i - before.len() - text.len()]);
            }
        }
        law_trimmed_of_white(whole);
        assert(t =~= trimmed(whole));
    }
}

/// A pattern occurs at a place exactly where the text goes on with it there.
pub proof fn law_occurs_where_it_stands(text: Seq<char>, pattern: Seq<char>, at: int)
    ensures
        occurs_at(text, pattern, at) <==> 0 <= at && at + pattern.len() <= text.len()
            && text.subrange(at, at + pattern.len()) == pattern,
{
}

/// White space is tab, the line breaks, the blank, the no-break spaces, the spaces
/// of every width and the separators of lines and paragraphs, and nothing else.
pub proof fn law_white_space_characters(c: char)
    ensures
        is_white_space(c) <==> c == ' ' || '\t' <= c <= '\r' || c == '\u{85}' || c == '\u{a0}' || c
            == '\u{1680}' || '\u{2000}' <= c <= '\u{200a}' || c == '\u{2028}' || c == '\u{2029}'
            || c == '\u{202f}' || c == '\u{205f}' || c == '\u{3000}',
{
}

} // verus!
