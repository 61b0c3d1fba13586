//! Text helpers: equality and ordering of names, and the `::` separator.
//!
//! A name is a `&str` or `String`; contracts speak of its view, a `Seq<char>`.
//! Names are ordered as Rust orders strings: byte by byte over their UTF-8
//! encoding, a proper prefix before the longer string.

use vstd::prelude::*;
use vstd::string::*;
use vstd::utf8::*;

verus! {

/// `a` and `b` agree on their first `k` bytes, and there `a` ends or holds the smaller byte.
pub open spec fn smaller_at(a: Seq<u8>, b: Seq<u8>, k: int) -> bool {
    &&& 0 <= k <= a.len()
    &&& k <= b.len()
    &&& forall|i: int| 0 <= i < k ==> a[i] == b[i]
    &&& if k == a.len() {
        k < b.len()
    } else {
        k < b.len() && a[k] < b[k]
    }
}

/// Lexicographic order on byte sequences.
pub open spec fn bytes_lt(a: Seq<u8>, b: Seq<u8>) -> bool {
    exists|k: int| smaller_at(a, b, k)
}

/// The order of names: lexicographic on the UTF-8 encoding.
pub open spec fn text_lt(a: Seq<char>, b: Seq<char>) -> bool {
    bytes_lt(encode_utf8(a), encode_utf8(b))
}

/// Two byte sequences that differ are ordered one way or the other, and never both.
pub proof fn lemma_bytes_trichotomy(a: Seq<u8>, b: Seq<u8>)
    ensures
        bytes_lt(a, b) || a == b || bytes_lt(b, a),
        !(bytes_lt(a, b) && bytes_lt(b, a)),
        !bytes_lt(a, a),
    decreases a.len(),
{
    if bytes_lt(a, b) && bytes_lt(b, a) {
        let k = choose|k: int| smaller_at(a, b, k);
        let m = choose|m: int| smaller_at(b, a, m);
        if k < m {
            assert(b[k] == a[k]);
        } else if m < k {
            assert(a[m] == b[m]);
        }
    }
    if bytes_lt(a, a) {
        let k = choose|k: int| smaller_at(a, a, k);
    }
    lemma_first_difference(a, b, 0);
}

/// Scanning from `from`, where `a` and `b` agree so far, finds the order of the two.
proof fn lemma_first_difference(a: Seq<u8>, b: Seq<u8>, from: int)
    requires
        0 <= from <= a.len(),
        from <= b.len(),
        forall|i: int| 0 <= i < from ==> a[i] == b[i],
    ensures
        bytes_lt(a, b) || a == b || bytes_lt(b, a),
    decreases a.len() - from,
{
    if from == a.len() {
        if from == b.len() {
            assert(a =~= b);
        } else {
            assert(smaller_at(a, b, from));
        }
    } else if from == b.len() {
        assert(smaller_at(b, a, from));
    } else if a[from] < b[from] {
        assert(smaller_at(a, b, from));
    } else if b[from] < a[from] {
        assert(smaller_at(b, a, from));
    } else {
        lemma_first_difference(a, b, from + 1);
    }
}

/// The order on byte sequences is transitive.
pub proof fn lemma_bytes_lt_transitive(a: Seq<u8>, b: Seq<u8>, c: Seq<u8>)
    requires
        bytes_lt(a, b),
        bytes_lt(b, c),
    ensures
        bytes_lt(a, c),
{
    let k = choose|k: int| smaller_at(a, b, k);
    let m = choose|m: int| smaller_at(b, c, m);
    if k <= m {
        assert(smaller_at(a, c, k));
    } else {
        assert(smaller_at(a, c, m));
    }
}

/// Names with the same encoding are the same name.
pub proof fn lemma_encoding_injective(a: Seq<char>, b: Seq<char>)
    requires
        encode_utf8(a) == encode_utf8(b),
    ensures
        a == b,
{
    encode_utf8_decode_utf8(a);
    encode_utf8_decode_utf8(b);
}

/// Whether two names are the same text.
pub fn str_eq(a: &str, b: &str) -> (r: bool)
    ensures
        r == (a@ == b@),
{
    let x = a.as_bytes();
    let y = b.as_bytes();
    if x.len() != y.len() {
        return false;
    }
    let mut i: usize = 0;
    while i < x.len()
        invariant
            i <= x.len(),
            x.len() == y.len(),
            x@ == encode_utf8(a@),
            y@ == encode_utf8(b@),
            forall|j: int| 0 <= j < i ==> x@[j] == y@[j],
        decreases x.len() - i,
    {
        if x[i] != y[i] {
            return false;
        }
        i += 1;
    }
    proof {
        assert(x@ =~= y@);
        lemma_encoding_injective(a@, b@);
    }
    true
}

/// Whether `a` sorts strictly before `b`.
pub fn str_lt(a: &str, b: &str) -> (r: bool)
    ensures
        r == text_lt(a@, b@),
{
    let x = a.as_bytes();
    let y = b.as_bytes();
    let mut i: usize = 0;
    while i < x.len() && i < y.len()
        invariant
            i <= x.len(),
            i <= y.len(),
            x@ == encode_utf8(a@),
            y@ == encode_utf8(b@),
            forall|j: int| 0 <= j < i ==> x@[j] == y@[j],
        decreases x.len() - i,
    {
        if x[i] != y[i] {
            proof {
                if x[i as int] < y[i as int] {
                    assert(smaller_at(x@, y@, i as int));
                } else {
                    assert forall|k: int| !smaller_at(x@, y@, k) by {
                        if smaller_at(x@, y@, k) {
                            if k > i {
                                assert(x@[i as int] == y@[i as int]);
                            }
                        }
                    }
                }
            }
            return x[i] < y[i];
        }
        i += 1;
    }
    proof {
        if x.len() < y.len() {
            assert(smaller_at(x@, y@, i as int));
        } else {
            assert forall|k: int| !smaller_at(x@, y@, k) by {
                if smaller_at(x@, y@, k) {
                    if k < y.len() {
                        assert(k < i);
                    }
                }
            }
        }
    }
    x.len() < y.len()
}

/// The two colons that separate the segments of a path.
pub open spec fn separator() -> Seq<char> {
    seq![':', ':']
}

/// The segments joined into one name, `::` between neighbours.
pub open spec fn join_path(segments: Seq<Seq<char>>) -> Seq<char>
    decreases segments.len(),
{
    if segments.len() == 0 {
        Seq::empty()
    } else if segments.len() == 1 {
        segments[0]
    } else {
        join_path(segments.drop_last()) + separator() + segments.last()
    }
}

/// Whether `::` stands at position `i` of `s`.
pub open spec fn separator_at(s: Seq<char>, i: int) -> bool {
    0 <= i && i + 1 < s.len() && s[i] == ':' && s[i + 1] == ':'
}

/// The segments of `s` from `start` on, when no separator begins in `start..i`.
pub open spec fn split_from(s: Seq<char>, start: int, i: int) -> Seq<Seq<char>>
    recommends
        0 <= start <= i <= s.len(),
    decreases s.len() - i,
{
    if i + 1 >= s.len() {
        seq![s.subrange(start, s.len() as int)]
    } else if separator_at(s, i) {
        seq![s.subrange(start, i)] + split_from(s, i + 2, i + 2)
    } else {
        split_from(s, start, i + 1)
    }
}

/// The segments of a path written with `::`: each separator ends a segment, the leftmost first.
pub open spec fn split_path(s: Seq<char>) -> Seq<Seq<char>> {
    split_from(s, 0, 0)
}

/// Joining with one more segment puts a separator before it.
pub proof fn lemma_join_prepend(head: Seq<char>, rest: Seq<Seq<char>>)
    requires
        rest.len() > 0,
    ensures
        join_path(seq![head] + rest) == head + separator() + join_path(rest),
    decreases rest.len(),
{
    let all = seq![head] + rest;
    if rest.len() == 1 {
        assert(all.drop_last() =~= seq![head]);
        assert(join_path(all.drop_last()) == head);
        assert(all.last() == rest[0]);
    } else {
        assert(all.drop_last() =~= seq![head] + rest.drop_last());
        lemma_join_prepend(head, rest.drop_last());
        assert(all.last() == rest.last());
        assert(join_path(all) =~= head + separator() + join_path(rest));
    }
}

proof fn lemma_split_from_join(s: Seq<char>, start: int, i: int)
    requires
        0 <= start <= i <= s.len(),
    ensures
        split_from(s, start, i).len() > 0,
        join_path(split_from(s, start, i)) == s.subrange(start, s.len() as int),
    decreases s.len() - i,
{
    if i + 1 >= s.len() {
    } else if separator_at(s, i) {
        lemma_split_from_join(s, i + 2, i + 2);
        let head = s.subrange(start, i);
        let rest = split_from(s, i + 2, i + 2);
        lemma_join_prepend(head, rest);
        assert(head + separator() + s.subrange(i + 2, s.len() as int) =~= s.subrange(
            start,
            s.len() as int,
        ));
    } else {
        lemma_split_from_join(s, start, i + 1);
    }
}

/// Splitting a path and joining its segments gives the path back.
pub proof fn lemma_split_then_join(s: Seq<char>)
    ensures
        split_path(s).len() > 0,
        join_path(split_path(s)) == s,
{
    lemma_split_from_join(s, 0, 0);
    assert(s.subrange(0, s.len() as int) =~= s);
}

/// The segments of `s`, an owned copy of each.
pub fn split_on_separator(s: &str) -> (r: Vec<String>)
    ensures
        r.deep_view() == split_path(s@),
{
    let n = s.unicode_len();
    let mut out: Vec<String> = Vec::new();
    let mut start: usize = 0;
    let mut i: usize = 0;
    while i < n && i + 1 < n
        invariant
            n == s@.len(),
            start <= i <= n,
            out.deep_view() + split_from(s@, start as int, i as int) =~= split_path(s@),
        decreases n - i,
    {
        if s.get_char(i) == ':' && s.get_char(i + 1) == ':' {
            let piece = String::from_str(s.substring_char(start, i));
            let ghost before = out.deep_view();
            out.push(piece);
            proof {
                assert(out.deep_view() =~= before + seq![s@.subrange(start as int, i as int)]);
            }
            i += 2;
            start = i;
        } else {
            i += 1;
        }
    }
    let piece = String::from_str(s.substring_char(start, n));
    let ghost before = out.deep_view();
    out.push(piece);
    proof {
        assert(out.deep_view() =~= before + seq![s@.subrange(start as int, n as int)]);
    }
    out
}

/// The segments joined into one name, `::` between neighbours.
pub fn join_with_separator(segments: &Vec<String>) -> (r: String)
    ensures
        r@ == join_path(segments.deep_view()),
{
    let mut out = String::new();
    let mut i: usize = 0;
    while i < segments.len()
        invariant
            i <= segments.len(),
            out@ == join_path(segments.deep_view().take(i as int)),
        decreases segments.len() - i,
    {
        let ghost before = segments.deep_view().take(i as int);
        let ghost after = segments.deep_view().take(i + 1);
        if i > 0 {
            proof {
                reveal_strlit("::");
                assert("::"@ =~= separator());
            }
            out.append("::");
        }
        out.append(segments[i].as_str());
        proof {
            assert(after.drop_last() =~= before);
            assert(after.last() == segments[i as int]@);
            if i == 0 {
                assert(out@ =~= segments[i as int]@);
            }
        }
        i += 1;
    }
    proof {
        assert(segments.deep_view().take(segments.len() as int) =~= segments.deep_view());
    }
    out
}

/// `s` without the double quotes it begins with.
pub open spec fn trim_start(s: Seq<char>) -> Seq<char>
    decreases s.len(),
{
    if s.len() > 0 && s[0] == '"' {
        trim_start(s.drop_first())
    } else {
        s
    }
}

/// `s` without the double quotes it ends with.
pub open spec fn trim_end(s: Seq<char>) -> Seq<char>
    decreases s.len(),
{
    if s.len() > 0 && s.last() == '"' {
        trim_end(s.drop_last())
    } else {
        s
    }
}

/// `s` without the double quotes at either end, however many there are.
pub open spec fn trim_quotes(s: Seq<char>) -> Seq<char> {
    trim_end(trim_start(s))
}

/// An owned copy of `s` without the double quotes at either end.
pub fn strip_quotes(s: &str) -> (r: String)
    ensures
        r@ == trim_quotes(s@),
{
    let n = s.unicode_len();
    let mut i: usize = 0;
    proof {
        assert(s@.skip(0) =~= s@);
    }
    while i < n && s.get_char(i) == '"'
        invariant
            i <= n,
            n == s@.len(),
            trim_start(s@) == trim_start(s@.skip(i as int)),
        decreases n - i,
    {
        proof {
            assert(s@.skip(i as int).drop_first() =~= s@.skip(i + 1));
        }
        i += 1;
    }
    let mut j: usize = n;
    proof {
        assert(s@.skip(i as int) =~= s@.subrange(i as int, n as int));
    }
    while j > i && s.get_char(j - 1) == '"'
        invariant
            i <= j <= n,
            n == s@.len(),
            trim_end(s@.skip(i as int)) == trim_end(s@.subrange(i as int, j as int)),
        decreases j,
    {
        proof {
            assert(s@.subrange(i as int, j as int).drop_last() =~= s@.subrange(
                i as int,
                j - 1,
            ));
        }
        j -= 1;
    }
    String::from_str(s.substring_char(i, j))
}

/// `a` followed by `b`.
pub fn followed_by(a: &str, b: &str) -> (r: String)
    ensures
        r@ == a@ + b@,
{
    let mut out = String::from_str(a);
    out.append(b);
    out
}

/// A copy of each text.
pub fn copy_texts(texts: &Vec<String>) -> (r: Vec<String>)
    ensures
        r.deep_view() == texts.deep_view(),
{
    let mut out: Vec<String> = Vec::new();
    let mut i: usize = 0;
    while i < texts.len()
        invariant
            i <= texts.len(),
            out.len() == i,
            forall|j: int| 0 <= j < i ==> (#[trigger] out[j])@ == texts[j]@,
        decreases texts.len() - i,
    {
        out.push(texts[i].clone());
        i += 1;
    }
    proof {
        assert(out.deep_view() =~= texts.deep_view());
    }
    out
}

/// Whether a character can stand inside an identifier: a letter, a digit,
/// an underscore, or any character outside ASCII.
pub open spec fn is_word_char(c: char) -> bool {
    let u = c as u32;
    u == 95 || (48 <= u <= 57) || (65 <= u <= 90) || (97 <= u <= 122) || u >= 128
}

/// Whether `word` stands at position `i` of `text` as a whole word: no
/// identifier character touches it on either side, and no `'` stands before
/// it, which would make it the name of a lifetime.
pub open spec fn word_at(text: Seq<char>, word: Seq<char>, i: int) -> bool {
    &&& word.len() > 0
    &&& 0 <= i
    &&& i + word.len() <= text.len()
    &&& text.subrange(i, i + word.len()) == word
    &&& (i == 0 || !(is_word_char(text[i - 1]) || text[i - 1] == '\''))
    &&& (i + word.len() == text.len() || !is_word_char(text[i + word.len()]))
}

/// How many of the first `n` positions of `text` hold `word` as a whole word.
pub open spec fn count_words_upto(text: Seq<char>, word: Seq<char>, n: int) -> nat
    decreases n,
{
    if n <= 0 {
        0
    } else {
        count_words_upto(text, word, n - 1) + if word_at(text, word, n - 1) {
            1nat
        } else {
            0nat
        }
    }
}

/// How many times `word` stands in `text` as a whole word.
pub open spec fn count_words(text: Seq<char>, word: Seq<char>) -> nat {
    count_words_upto(text, word, text.len() as int)
}

/// A text that is the word itself holds it once.
pub proof fn lemma_count_of_the_word(word: Seq<char>)
    requires
        word.len() > 0,
    ensures
        count_words(word, word) == 1,
{
    assert(word.subrange(0, word.len() as int) =~= word);
    assert(word_at(word, word, 0));
    assert(count_words_upto(word, word, 1) == 1) by {
        assert(count_words_upto(word, word, 0) == 0);
    }
    lemma_no_word_later(word, word, word.len() as int);
}

proof fn lemma_no_word_later(text: Seq<char>, word: Seq<char>, n: int)
    requires
        text.len() == word.len(),
        1 <= n <= text.len(),
    ensures
        count_words_upto(text, word, n) == count_words_upto(text, word, 1),
    decreases n,
{
    if n > 1 {
        lemma_no_word_later(text, word, n - 1);
        assert(!word_at(text, word, n - 1));
    }
}

/// The characters of a text.
pub fn chars_of(s: &str) -> (r: Vec<char>)
    ensures
        r@ == s@,
{
    let n = s.unicode_len();
    let mut out: Vec<char> = Vec::new();
    let mut i: usize = 0;
    while i < n
        invariant
            i <= n,
            n == s@.len(),
            out@ == s@.take(i as int),
        decreases n - i,
    {
        out.push(s.get_char(i));
        proof {
            assert(out@ =~= s@.take(i + 1));
        }
        i += 1;
    }
    proof {
        assert(s@.take(n as int) =~= s@);
    }
    out
}

/// Whether a character can stand inside an identifier.
pub fn word_char(c: char) -> (r: bool)
    ensures
        r == is_word_char(c),
{
    let u = c as u32;
    u == 95 || (48 <= u && u <= 57) || (65 <= u && u <= 90) || (97 <= u && u <= 122) || u >= 128
}

/// Whether `word` stands at position `i` of `text` as a whole word.
fn is_word_at(text: &Vec<char>, word: &Vec<char>, i: usize) -> (r: bool)
    requires
        i < text.len(),
    ensures
        r == word_at(text@, word@, i as int),
{
    let m = word.len();
    if m == 0 || m > text.len() - i {
        return false;
    }
    if i > 0 && (word_char(text[i - 1]) || text[i - 1] == '\'') {
        return false;
    }
    if i + m < text.len() && word_char(text[i + m]) {
        return false;
    }
    let mut k: usize = 0;
    while k < m
        invariant
            k <= m,
            m == word.len(),
            i + m <= text.len(),
            forall|j: int| 0 <= j < k ==> text@[i + j] == word@[j],
        decreases m - k,
    {
        if text[i + k] != word[k] {
            proof {
                assert(text@.subrange(i as int, i + m)[k as int] == text@[i + k]);
            }
            return false;
        }
        k += 1;
    }
    proof {
        assert(text@.subrange(i as int, i + m) =~= word@);
    }
    true
}

/// How many times `word` stands in `text` as a whole word.
pub fn count_word(text: &str, word: &str) -> (r: usize)
    ensures
        r == count_words(text@, word@),
{
    let t = chars_of(text);
    let w = chars_of(word);
    let mut count: usize = 0;
    let mut i: usize = 0;
    while i < t.len()
        invariant
            i <= t.len(),
            t@ == text@,
            w@ == word@,
            count <= i,
            count == count_words_upto(text@, word@, i as int),
        decreases t.len() - i,
    {
        if is_word_at(&t, &w, i) {
            count += 1;
        }
        i += 1;
    }
    count
}

} // verus!
