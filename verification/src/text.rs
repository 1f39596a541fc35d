//! Identifiers as text: the order by which lists are sorted, and the small
//! operations on lists of names that the rest of the crate is built from.

use vstd::prelude::*;
use vstd::utf8::*;
use vstd::string::*;

verus! {

/// `a` and `b` agree on their first `k` bytes, and `a` then ends or goes on
/// with a smaller byte than `b`.
pub open spec fn less_at(a: Seq<u8>, b: Seq<u8>, k: int) -> bool {
    &&& 0 <= k <= a.len()
    &&& k < b.len()
    &&& forall|j: int| 0 <= j < k ==> #[trigger] a[j] == b[j]
    &&& (k == a.len() || a[k] < b[k])
}

/// The lexicographic order on byte strings.
pub open spec fn bytes_less(a: Seq<u8>, b: Seq<u8>) -> bool {
    exists|k: int| #[trigger] less_at(a, b, k)
}

/// The order on identifiers: lexicographic by the bytes of their UTF-8
/// encoding, which is the order that `str` has.
pub open spec fn str_less(a: Seq<char>, b: Seq<char>) -> bool {
    bytes_less(encode_utf8(a), encode_utf8(b))
}

/// The names that a list of strings holds, in the list's order.
pub open spec fn names(v: Seq<String>) -> Seq<Seq<char>> {
    Seq::new(v.len(), |i: int| v[i]@)
}

/// The set of names that a list of strings holds.
pub open spec fn name_set(v: Seq<String>) -> Set<Seq<char>> {
    names(v).to_set()
}

/// Every name stands before all names that follow it: the list is sorted
/// ascending and holds nothing twice.
pub open spec fn strictly_sorted(s: Seq<Seq<char>>) -> bool {
    forall|i: int, j: int| 0 <= i < j < s.len() ==> str_less(#[trigger] s[i], #[trigger] s[j])
}

/// No name occurs at two places of the list.
pub open spec fn distinct(s: Seq<Seq<char>>) -> bool {
    forall|i: int, j: int| 0 <= i < j < s.len() ==> #[trigger] s[i] != #[trigger] s[j]
}

/// No byte string stands before itself.
pub proof fn lemma_bytes_less_irreflexive(a: Seq<u8>)
    ensures
        !bytes_less(a, a),
{
}

/// The order on byte strings is transitive.
pub proof fn lemma_bytes_less_transitive(a: Seq<u8>, b: Seq<u8>, c: Seq<u8>)
    requires
        bytes_less(a, b),
        bytes_less(b, c),
    ensures
        bytes_less(a, c),
{
    let k1 = choose|k: int| less_at(a, b, k);
    let k2 = choose|k: int| less_at(b, c, k);
    let k = if k1 <= k2 { k1 } else { k2 };
    assert forall|j: int| 0 <= j < k implies #[trigger] a[j] == c[j] by {
        assert(a[j] == b[j]);
        assert(b[j] == c[j]);
    }
    if k1 < k2 {
        assert(b[k1] == c[k1]);
    } else if k2 < k1 {
        assert(a[k2] == b[k2]);
    }
    assert(less_at(a, c, k));
}

/// Two byte strings that agree on their first `n` bytes, or else one of
/// them is smaller.
proof fn lemma_bytes_agree_or_ordered(a: Seq<u8>, b: Seq<u8>, n: int)
    requires
        0 <= n <= a.len(),
        n <= b.len(),
    ensures
        bytes_less(a, b) || bytes_less(b, a) || forall|j: int|
            0 <= j < n ==> #[trigger] a[j] == b[j],
    decreases n,
{
    if n > 0 {
        lemma_bytes_agree_or_ordered(a, b, n - 1);
        if !bytes_less(a, b) && !bytes_less(b, a) {
            if a[n - 1] < b[n - 1] {
                assert(less_at(a, b, n - 1));
            } else if b[n - 1] < a[n - 1] {
                assert forall|j: int| 0 <= j < n - 1 implies #[trigger] b[j] == a[j] by {
                    assert(a[j] == b[j]);
                }
                assert(less_at(b, a, n - 1));
            }
        }
    }
}

/// The order on byte strings is total: of two different byte strings one
/// stands before the other.
pub proof fn lemma_bytes_trichotomy(a: Seq<u8>, b: Seq<u8>)
    ensures
        bytes_less(a, b) || bytes_less(b, a) || a == b,
{
    let n = if a.len() <= b.len() { a.len() as int } else { b.len() as int };
    lemma_bytes_agree_or_ordered(a, b, n);
    if !bytes_less(a, b) && !bytes_less(b, a) {
        if a.len() < b.len() {
            assert(less_at(a, b, n));
        } else if b.len() < a.len() {
            assert forall|j: int| 0 <= j < n implies #[trigger] b[j] == a[j] by {
                assert(a[j] == b[j]);
            }
            assert(less_at(b, a, n));
        } else {
            assert forall|j: int| 0 <= j < n implies a[j] == b[j] by {
                assert(a[j] == b[j]);
            }
            assert(a =~= b);
        }
    }
}

/// No identifier stands before itself.
pub proof fn lemma_str_less_irreflexive(a: Seq<char>)
    ensures
        !str_less(a, a),
{
}

/// The order on identifiers is transitive.
pub proof fn lemma_str_less_transitive(a: Seq<char>, b: Seq<char>, c: Seq<char>)
    requires
        str_less(a, b),
        str_less(b, c),
    ensures
        str_less(a, c),
{
    lemma_bytes_less_transitive(encode_utf8(a), encode_utf8(b), encode_utf8(c));
}

/// The order on identifiers is total: of two different identifiers one
/// stands before the other.
pub proof fn lemma_str_trichotomy(a: Seq<char>, b: Seq<char>)
    ensures
        str_less(a, b) || str_less(b, a) || a == b,
{
    lemma_bytes_trichotomy(encode_utf8(a), encode_utf8(b));
    if encode_utf8(a) == encode_utf8(b) {
        encode_utf8_decode_utf8(a);
        encode_utf8_decode_utf8(b);
    }
}

/// A name that stands before another differs from it, and the other does
/// not stand before it.
pub proof fn lemma_str_less_asymmetric(a: Seq<char>, b: Seq<char>)
    requires
        str_less(a, b),
    ensures
        a != b,
        !str_less(b, a),
{
    if str_less(b, a) {
        lemma_str_less_transitive(a, b, a);
    }
}

/// A strictly sorted list holds nothing twice.
pub proof fn lemma_sorted_distinct(s: Seq<Seq<char>>)
    requires
        strictly_sorted(s),
    ensures
        distinct(s),
{
    assert forall|i: int, j: int| 0 <= i < j < s.len() implies #[trigger] s[i] != #[trigger] s[j] by {
        lemma_str_less_asymmetric(s[i], s[j]);
    }
}

/// Whether `a` stands before `b` in the order of identifiers.
pub fn str_lt(a: &str, b: &str) -> (r: bool)
    ensures
        r == str_less(a@, b@),
{
    let x = a.as_bytes();
    let y = b.as_bytes();
    let mut i: usize = 0;
    while i < x.len() && i < y.len() && x[i] == y[i]
        invariant
            i <= x.len(),
            i <= y.len(),
            x@ == encode_utf8(a@),
            y@ == encode_utf8(b@),
            forall|j: int| 0 <= j < i ==> #[trigger] x@[j] == y@[j],
        decreases x.len() - i,
    {
        i += 1;
    }
    let r = i < y.len() && (i == x.len() || x[i] < y[i]);
    proof {
        if r {
            assert(less_at(x@, y@, i as int));
        } else {
            assert forall|k: int| !less_at(x@, y@, k) by {
                if less_at(x@, y@, k) {
                    if k < i {
                        assert(x@[k] == y@[k]);
                    } else if k > i {
                        assert(x@[i as int] == y@[i as int]);
                    }
                }
            }
        }
    }
    r
}

/// Whether the list holds the name `s`.
pub fn contains(v: &Vec<String>, s: &String) -> (r: bool)
    ensures
        r == name_set(v@).contains(s@),
{
    let mut i: usize = 0;
    while i < v.len()
        invariant
            i <= v.len(),
            forall|j: int| 0 <= j < i ==> v@[j]@ != s@,
        decreases v.len() - i,
    {
        if v[i] == *s {
            assert(names(v@)[i as int] == s@);
            return true;
        }
        i += 1;
    }
    proof {
        if names(v@).contains(s@) {
            let j = choose|j: int| 0 <= j < names(v@).len() && names(v@)[j] == s@;
            assert(v@[j]@ == s@);
        }
    }
    false
}

/// Putting a name into a list: what the list holds at each place afterwards.
proof fn lemma_names_insert(before: Seq<String>, i: int, s: String)
    requires
        0 <= i <= before.len(),
    ensures
        names(before.insert(i, s)) == names(before).insert(i, s@),
        name_set(before.insert(i, s)) == name_set(before).insert(s@),
{
    let after = before.insert(i, s);
    assert(names(after) =~= names(before).insert(i, s@));
    assert forall|x: Seq<char>| name_set(after).contains(x) <==> name_set(before).insert(
        s@,
    ).contains(x) by {
        if names(after).contains(x) {
            let j = choose|j: int| 0 <= j < names(after).len() && names(after)[j] == x;
            if j < i {
                assert(names(before)[j] == x);
            } else if j > i {
                assert(names(before)[j - 1] == x);
            }
        }
        if names(before).contains(x) {
            let j = choose|j: int| 0 <= j < names(before).len() && names(before)[j] == x;
            if j < i {
                assert(names(after)[j] == x);
            } else {
                assert(names(after)[j + 1] == x);
            }
        }
        if x == s@ {
            assert(names(after)[i] == x);
        }
    }
    assert(name_set(after) =~= name_set(before).insert(s@));
}

/// Puts `s` at its place in a sorted list, unless the list holds that name
/// already.
pub fn insert_sorted(v: &mut Vec<String>, s: String)
    requires
        strictly_sorted(names(old(v)@)),
    ensures
        strictly_sorted(names(final(v)@)),
        name_set(final(v)@) == name_set(old(v)@).insert(s@),
{
    let mut i: usize = 0;
    while i < v.len() && str_lt(v[i].as_str(), s.as_str())
        invariant
            i <= v.len(),
            v@ == old(v)@,
            forall|j: int| 0 <= j < i ==> str_less(#[trigger] v@[j]@, s@),
        decreases v.len() - i,
    {
        i += 1;
    }
    if i < v.len() && v[i] == s {
        proof {
            assert(names(v@)[i as int] == s@);
            assert(name_set(v@) =~= name_set(v@).insert(s@));
        }
        return ;
    }
    let ghost before = v@;
    let ghost name = s@;
    v.insert(i, s);
    proof {
        let old_names = names(before);
        let new_names = names(v@);
        lemma_names_insert(before, i as int, s);
        assert forall|j: int| i <= j < before.len() implies str_less(name, #[trigger] old_names[j]) by {
            lemma_str_trichotomy(name, before[i as int]@);
            assert(old_names[i as int] == before[i as int]@);
            if j > i {
                lemma_str_less_transitive(name, old_names[i as int], old_names[j]);
            }
        }
        assert forall|a: int, b: int| 0 <= a < b < new_names.len() implies str_less(
            #[trigger] new_names[a],
            #[trigger] new_names[b],
        ) by {
            if b < i {
                assert(str_less(old_names[a], old_names[b]));
            } else if b == i {
                assert(str_less(before[a]@, name));
            } else if a < i {
                assert(str_less(old_names[a], old_names[b - 1]));
            } else if a == i {
                assert(str_less(name, old_names[b - 1]));
            } else {
                assert(str_less(old_names[a - 1], old_names[b - 1]));
            }
        }
    }
}

/// The keys of a list of pairs.
pub open spec fn key_set(pairs: Seq<(String, String)>) -> Set<Seq<char>> {
    Set::new(|k: Seq<char>| exists|i: int| 0 <= i < pairs.len() && #[trigger] pairs[i].0@ == k)
}

/// A list of pairs read as a map: the first pair with a key gives its value.
pub open spec fn first_values(pairs: Seq<(String, String)>) -> Map<Seq<char>, Seq<char>>
    decreases pairs.len(),
{
    if pairs.len() == 0 {
        Map::empty()
    } else {
        let rest = first_values(pairs.drop_last());
        let last = pairs.last();
        if rest.dom().contains(last.0@) {
            rest
        } else {
            rest.insert(last.0@, last.1@)
        }
    }
}

/// No key occurs in two pairs.
pub open spec fn distinct_keys(pairs: Seq<(String, String)>) -> bool {
    forall|i: int, j: int|
        0 <= i < j < pairs.len() ==> (#[trigger] pairs[i]).0@ != (#[trigger] pairs[j]).0@
}

/// The map of a list of pairs is defined on the list's keys.
pub proof fn lemma_first_values_dom(pairs: Seq<(String, String)>)
    ensures
        first_values(pairs).dom() == key_set(pairs),
    decreases pairs.len(),
{
    if pairs.len() > 0 {
        let front = pairs.drop_last();
        lemma_first_values_dom(front);
        assert forall|k: Seq<char>| first_values(pairs).dom().contains(k) <==> key_set(
            pairs,
        ).contains(k) by {
            if key_set(front).contains(k) {
                let i = choose|i: int| 0 <= i < front.len() && #[trigger] front[i].0@ == k;
                assert(pairs[i].0@ == k);
            }
            if key_set(pairs).contains(k) {
                let i = choose|i: int| 0 <= i < pairs.len() && #[trigger] pairs[i].0@ == k;
                if i < front.len() {
                    assert(front[i].0@ == k);
                }
            }
            if k == pairs.last().0@ {
                assert(pairs[pairs.len() - 1].0@ == k);
            }
        }
    }
    assert(first_values(pairs).dom() =~= key_set(pairs));
}

/// Whether one of the pairs has the key `k`.
pub fn has_key(pairs: &Vec<(String, String)>, k: &String) -> (r: bool)
    ensures
        r == key_set(pairs@).contains(k@),
{
    let mut i: usize = 0;
    while i < pairs.len()
        invariant
            i <= pairs.len(),
            forall|j: int| 0 <= j < i ==> (#[trigger] pairs@[j]).0@ != k@,
        decreases pairs.len() - i,
    {
        if pairs[i].0 == *k {
            return true;
        }
        i += 1;
    }
    false
}

/// What one more pair adds to the map of a list of pairs.
pub proof fn lemma_first_values_next(pairs: Seq<(String, String)>, i: int)
    requires
        0 <= i < pairs.len(),
    ensures
        first_values(pairs.take(i + 1)) == if first_values(pairs.take(i)).dom().contains(
            pairs[i].0@,
        ) {
            first_values(pairs.take(i))
        } else {
            first_values(pairs.take(i)).insert(pairs[i].0@, pairs[i].1@)
        },
        pairs.take(pairs.len() as int) == pairs,
{
    assert(pairs.take(i + 1).drop_last() =~= pairs.take(i));
    assert(pairs.take(i + 1).last() == pairs[i]);
    assert(pairs.take(pairs.len() as int) =~= pairs);
}

/// The character at place `i` of `text`. With `ascii` set the text must be
/// ASCII, and the character is then found without a walk through the text.
pub fn char_at(text: &str, ascii: bool, i: usize) -> (c: char)
    requires
        i < text@.len(),
        ascii ==> is_ascii(text),
    ensures
        c == text@[i as int],
{
    if ascii {
        let b = text.get_ascii(i);
        b as char
    } else {
        text.get_char(i)
    }
}

/// The part of `text` from place `from` up to place `to`.
pub fn slice_of(text: &str, ascii: bool, from: usize, to: usize) -> (r: &str)
    requires
        from <= to <= text@.len(),
        ascii ==> is_ascii(text),
    ensures
        r@ == text@.subrange(from as int, to as int),
{
    if ascii {
        text.substring_ascii(from, to)
    } else {
        text.substring_char(from, to)
    }
}

/// The place of the first `c` in `s`, or the length of `s` if it holds
/// none.
pub open spec fn first_char(s: Seq<char>, c: char) -> int
    decreases s.len(),
{
    if s.len() == 0 || s[0] == c {
        0
    } else {
        1 + first_char(s.drop_first(), c)
    }
}

/// A line without the carriage return at its end, if it has one.
pub open spec fn without_cr(line: Seq<char>) -> Seq<char> {
    if line.len() > 0 && line.last() == '\r' {
        line.drop_last()
    } else {
        line
    }
}

/// The lines of a text, as `str::lines` gives them: a line ends at a line
/// feed, which is not part of the line, nor is a carriage return just
/// before it. What follows the last line feed is a line too, unless it is
/// empty.
pub open spec fn lines_of(s: Seq<char>) -> Seq<Seq<char>>
    decreases s.len(),
{
    if s.len() == 0 {
        seq![]
    } else {
        let n = first_char(s, '\n');
        if n < 0 || n >= s.len() {
            seq![s]
        } else {
            seq![without_cr(s.take(n))] + lines_of(s.skip(n + 1))
        }
    }
}

/// The first `c` stands at `k` if it stands there and nowhere before.
proof fn lemma_first_char(s: Seq<char>, c: char, k: int)
    requires
        0 <= k <= s.len(),
        forall|j: int| 0 <= j < k ==> s[j] != c,
        k == s.len() || s[k] == c,
    ensures
        first_char(s, c) == k,
    decreases k,
{
    if k > 0 {
        let rest = s.drop_first();
        assert forall|j: int| 0 <= j < k - 1 implies rest[j] != c by {
            assert(rest[j] == s[j + 1]);
        }
        lemma_first_char(rest, c, k - 1);
    }
}

/// The place of the first `c` in `text` at or after `from`, or the length
/// of `text` if there is none.
pub fn find_from(text: &str, ascii: bool, from: usize, c: char) -> (end: usize)
    requires
        from <= text@.len(),
        ascii ==> is_ascii(text),
    ensures
        from <= end <= text@.len(),
        end - from == first_char(text@.skip(from as int), c),
        forall|j: int| from <= j < end ==> text@[j] != c,
        end < text@.len() ==> text@[end as int] == c,
{
    let n = text.unicode_len();
    let mut end = from;
    while end < n && char_at(text, ascii, end) != c
        invariant
            from <= end <= n,
            n == text@.len(),
            ascii ==> is_ascii(text),
            forall|j: int| from <= j < end ==> text@[j] != c,
        decreases n - end,
    {
        end += 1;
    }
    proof {
        let rest = text@.skip(from as int);
        assert forall|j: int| 0 <= j < end - from implies rest[j] != c by {
            assert(rest[j] == text@[from + j]);
        }
        if end < n {
            assert(rest[end - from] == text@[end as int]);
        }
        lemma_first_char(rest, c, end - from);
    }
    end
}

/// Splits a text into its lines.
pub fn lines(text: &str) -> (r: Vec<String>)
    ensures
        names(r@) == lines_of(text@),
{
    let ascii = text.is_ascii();
    let n = text.unicode_len();
    let mut out: Vec<String> = Vec::new();
    let mut start: usize = 0;
    assert(text@.skip(0) =~= text@);
    assert(names(out@) + lines_of(text@) =~= lines_of(text@));
    while start < n
        invariant
            start <= n,
            n == text@.len(),
            ascii ==> is_ascii(text),
            lines_of(text@) == names(out@) + lines_of(text@.skip(start as int)),
        decreases n - start,
    {
        let end = find_from(text, ascii, start, '\n');
        let ghost rest = text@.skip(start as int);
        let mut stop = end;
        if end < n && stop > start && char_at(text, ascii, stop - 1) == '\r' {
            stop -= 1;
        }
        let line = slice_of(text, ascii, start, stop).to_owned();
        let ghost before = names(out@);
        out.push(line);
        proof {
            assert(names(out@) =~= before.push(line@));
            if end < n {
                assert(rest.take(end - start) =~= text@.subrange(start as int, end as int));
                assert(line@ =~= without_cr(rest.take(end - start)));
                assert(rest.skip(end - start + 1) =~= text@.skip(end + 1));
                assert(lines_of(rest) == seq![line@] + lines_of(text@.skip(end + 1)));
                assert(before.push(line@) + lines_of(text@.skip(end + 1)) =~= before + (seq![
                    line@,
                ] + lines_of(text@.skip(end + 1))));
            } else {
                assert(line@ =~= rest);
                assert(text@.skip(n as int).len() == 0);
                assert(before.push(line@) + lines_of(text@.skip(n as int)) =~= before + seq![
                    line@,
                ]);
            }
        }
        start = if end < n {
            end + 1
        } else {
            end
        };
    }
    assert(names(out@) + lines_of(text@.skip(start as int)) =~= names(out@));
    out
}

/// Whether `c` is white space, as `char::is_whitespace` says: whether it
/// has the Unicode property `White_Space`.
pub uninterp spec fn whitespace(c: char) -> bool;

/// Asks `char::is_whitespace`.
///
/// Taken on trust: the answer depends on the character alone.
#[verifier::external_body]
fn is_whitespace(c: char) -> (r: bool)
    ensures
        r == whitespace(c),
{
    c.is_whitespace()
}

/// The place of the first white space in `s`, or the length of `s` if it
/// holds none.
pub open spec fn word_end(s: Seq<char>) -> int
    decreases s.len(),
{
    if s.len() == 0 || whitespace(s[0]) {
        0
    } else {
        1 + word_end(s.drop_first())
    }
}

/// The words of a text, as `str::split_whitespace` gives them: the longest
/// stretches without white space, in their order.
pub open spec fn words_of(s: Seq<char>) -> Seq<Seq<char>>
    decreases s.len(),
{
    if s.len() == 0 {
        seq![]
    } else if whitespace(s[0]) {
        words_of(s.drop_first())
    } else {
        let n = word_end(s);
        if n <= 0 || n > s.len() {
            seq![s]
        } else {
            seq![s.take(n)] + words_of(s.skip(n))
        }
    }
}

/// The first white space stands at `k` if it stands there and nowhere
/// before.
proof fn lemma_word_end(s: Seq<char>, k: int)
    requires
        0 <= k <= s.len(),
        forall|j: int| 0 <= j < k ==> !whitespace(s[j]),
        k == s.len() || whitespace(s[k]),
    ensures
        word_end(s) == k,
    decreases k,
{
    if k > 0 {
        let rest = s.drop_first();
        assert forall|j: int| 0 <= j < k - 1 implies !whitespace(rest[j]) by {
            assert(rest[j] == s[j + 1]);
        }
        lemma_word_end(rest, k - 1);
    }
}

/// Splits a text into its words.
pub fn split_whitespace(text: &str) -> (r: Vec<String>)
    ensures
        names(r@) == words_of(text@),
{
    let ascii = text.is_ascii();
    let n = text.unicode_len();
    let mut out: Vec<String> = Vec::new();
    let mut i: usize = 0;
    assert(text@.skip(0) =~= text@);
    assert(names(out@) + words_of(text@) =~= words_of(text@));
    while i < n
        invariant
            i <= n,
            n == text@.len(),
            ascii ==> is_ascii(text),
            words_of(text@) == names(out@) + words_of(text@.skip(i as int)),
        decreases n - i,
    {
        let ghost rest = text@.skip(i as int);
        assert(rest[0] == text@[i as int]);
        if is_whitespace(char_at(text, ascii, i)) {
            assert(rest.drop_first() =~= text@.skip(i + 1));
            i += 1;
        } else {
            let mut end = i + 1;
            while end < n && !is_whitespace(char_at(text, ascii, end))
                invariant
                    i < end <= n,
                    n == text@.len(),
                    ascii ==> is_ascii(text),
                    forall|j: int| i <= j < end ==> !whitespace(text@[j]),
                decreases n - end,
            {
                end += 1;
            }
            proof {
                assert forall|j: int| 0 <= j < end - i implies !whitespace(rest[j]) by {
                    assert(rest[j] == text@[i + j]);
                }
                if end < n {
                    assert(rest[end - i] == text@[end as int]);
                }
                lemma_word_end(rest, end - i);
            }
            let word = slice_of(text, ascii, i, end).to_owned();
            let ghost before = names(out@);
            out.push(word);
            proof {
                assert(names(out@) =~= before.push(word@));
                assert(rest.take(end - i) =~= word@);
                assert(rest.skip(end - i) =~= text@.skip(end as int));
                assert(before.push(word@) + words_of(text@.skip(end as int)) =~= before + (seq![
                    word@,
                ] + words_of(text@.skip(end as int))));
            }
            i = end;
        }
    }
    assert(names(out@) + words_of(text@.skip(i as int)) =~= names(out@));
    out
}

/// The decimal digit for a number below ten.
pub open spec fn digit(d: nat) -> char {
    if d == 0 {
        '0'
    } else if d == 1 {
        '1'
    } else if d == 2 {
        '2'
    } else if d == 3 {
        '3'
    } else if d == 4 {
        '4'
    } else if d == 5 {
        '5'
    } else if d == 6 {
        '6'
    } else if d == 7 {
        '7'
    } else if d == 8 {
        '8'
    } else {
        '9'
    }
}

/// A number written in decimal.
pub open spec fn decimal_text(n: nat) -> Seq<char>
    decreases n,
{
    if n < 10 {
        seq![digit(n)]
    } else {
        decimal_text(n / 10).push(digit(n % 10))
    }
}

/// The decimal digit for a number below ten, as a text.
fn digit_str(d: usize) -> (r: &'static str)
    requires
        d < 10,
    ensures
        r@ == seq![digit(d as nat)],
{
    proof {
        reveal_strlit("0");
        reveal_strlit("1");
        reveal_strlit("2");
        reveal_strlit("3");
        reveal_strlit("4");
        reveal_strlit("5");
        reveal_strlit("6");
        reveal_strlit("7");
        reveal_strlit("8");
        reveal_strlit("9");
    }
    let r = if d == 0 {
        "0"
    } else if d == 1 {
        "1"
    } else if d == 2 {
        "2"
    } else if d == 3 {
        "3"
    } else if d == 4 {
        "4"
    } else if d == 5 {
        "5"
    } else if d == 6 {
        "6"
    } else if d == 7 {
        "7"
    } else if d == 8 {
        "8"
    } else {
        "9"
    };
    assert(r@ =~= seq![digit(d as nat)]);
    r
}

/// Writes a number in decimal.
pub fn decimal(n: usize) -> (r: String)
    ensures
        r@ == decimal_text(n as nat),
    decreases n,
{
    if n < 10 {
        digit_str(n).to_owned()
    } else {
        let mut r = decimal(n / 10);
        r.append(digit_str(n % 10));
        assert(r@ =~= decimal_text((n / 10) as nat).push(digit((n % 10) as nat)));
        r
    }
}

} // verus!
