//! Character-level helpers shared by the parsers: whitespace, trimming,
//! searching and unsigned decimal numbers, all stated over `Seq<char>`.

use vstd::prelude::*;

verus! {

/// The characters with the Unicode `White_Space` property.
pub open spec fn is_whitespace(c: char) -> bool {
    let u = c as u32;
    (0x09 <= u <= 0x0D) || u == 0x20 || u == 0x85 || u == 0xA0 || u == 0x1680 || (0x2000 <= u
        <= 0x200A) || u == 0x2028 || u == 0x2029 || u == 0x202F || u == 0x205F || u == 0x3000
}

/// The ASCII decimal digits.
pub open spec fn is_digit(c: char) -> bool {
    0x30 <= c as u32 <= 0x39
}

/// The value of a decimal digit.
pub open spec fn digit_value(c: char) -> nat {
    (c as u32 - 0x30) as nat
}

/// Every character of `s` is a decimal digit.
pub open spec fn all_digits(s: Seq<char>) -> bool {
    forall|i: int| 0 <= i < s.len() ==> is_digit(#[trigger] s[i])
}

/// The number that a sequence of decimal digits writes, most significant
/// digit first. The empty sequence writes zero.
pub open spec fn digits_value(s: Seq<char>) -> nat
    decreases s.len(),
{
    if s.len() == 0 {
        0
    } else {
        digits_value(s.drop_last()) * 10 + digit_value(s.last())
    }
}

/// What is left of `s` once a single leading `+` is removed.
pub open spec fn unsigned_body(s: Seq<char>) -> Seq<char> {
    if s.len() > 0 && s[0] == '+' {
        s.drop_first()
    } else {
        s
    }
}

/// Reads `s` as an unsigned decimal number that fits in 64 bits: an optional
/// `+`, then one or more digits and nothing else.
pub open spec fn parse_u64(s: Seq<char>) -> Option<u64> {
    let body = unsigned_body(s);
    if body.len() > 0 && all_digits(body) && digits_value(body) <= u64::MAX {
        Some(digits_value(body) as u64)
    } else {
        None
    }
}

/// `s` without its leading whitespace.
pub open spec fn trim_start(s: Seq<char>) -> Seq<char>
    decreases s.len(),
{
    if s.len() > 0 && is_whitespace(s[0]) {
        trim_start(s.drop_first())
    } else {
        s
    }
}

/// `s` without its trailing whitespace.
pub open spec fn trim_end(s: Seq<char>) -> Seq<char>
    decreases s.len(),
{
    if s.len() > 0 && is_whitespace(s.last()) {
        trim_end(s.drop_last())
    } else {
        s
    }
}

/// `s` without leading and trailing whitespace.
pub open spec fn trim(s: Seq<char>) -> Seq<char> {
    trim_end(trim_start(s))
}

/// Length of the longest prefix of `s` that holds no whitespace.
pub open spec fn word_len(s: Seq<char>) -> nat
    decreases s.len(),
{
    if s.len() > 0 && !is_whitespace(s[0]) {
        1 + word_len(s.drop_first())
    } else {
        0
    }
}

/// The first whitespace-separated word of `s`, empty if `s` holds none.
pub open spec fn first_word(s: Seq<char>) -> Seq<char> {
    let t = trim_start(s);
    t.take(word_len(t) as int)
}

/// Position of the first `c` in `s`, or the length of `s` if there is none.
pub open spec fn position_of(s: Seq<char>, c: char) -> nat
    decreases s.len(),
{
    if s.len() > 0 && s[0] != c {
        1 + position_of(s.drop_first(), c)
    } else {
        0
    }
}

/// `s` begins with `prefix`.
pub open spec fn has_prefix(s: Seq<char>, prefix: Seq<char>) -> bool {
    prefix.len() <= s.len() && s.take(prefix.len() as int) == prefix
}

/// A natural number clamped to what 64 bits hold.
pub open spec fn saturate(n: nat) -> u64 {
    if n > u64::MAX {
        u64::MAX
    } else {
        n as u64
    }
}

/// The first word ends at the first whitespace and holds none.
pub proof fn lemma_word_len_bound(s: Seq<char>)
    ensures
        word_len(s) <= s.len(),
        word_len(s) < s.len() ==> is_whitespace(s[word_len(s) as int]),
        forall|i: int| 0 <= i < word_len(s) ==> !is_whitespace(#[trigger] s[i]),
    decreases s.len(),
{
    if s.len() > 0 && !is_whitespace(s[0]) {
        let t = s.drop_first();
        lemma_word_len_bound(t);
        assert forall|i: int| 0 <= i < word_len(s) implies !is_whitespace(#[trigger] s[i]) by {
            if i > 0 {
                assert(s[i] == t[i - 1]);
            }
        }
    }
}

/// A longer run of digits never writes a smaller number than its prefix.
pub proof fn lemma_digits_value_prefix(s: Seq<char>, k: int)
    requires
        0 <= k <= s.len(),
    ensures
        digits_value(s.take(k)) <= digits_value(s),
    decreases s.len() - k,
{
    if k == s.len() {
        assert(s.take(k) =~= s);
    } else {
        lemma_digits_value_prefix(s, k + 1);
        let t = s.take(k + 1);
        assert(t.drop_last() =~= s.take(k));
        assert(digits_value(t) == digits_value(s.take(k)) * 10 + digit_value(t.last()));
    }
}

/// Collects the characters of `s` into a vector.
pub fn chars_of(s: &str) -> (v: Vec<char>)
    ensures
        v@ == s@,
{
    let mut v: Vec<char> = Vec::new();
    for c in it: s.chars()
        invariant
            v@ == it.seq().take(it.index()),
            it.seq() == s@,
    {
        v.push(c);
    }
    v
}

/// Tells whether `c` is Unicode whitespace.
pub fn char_is_whitespace(c: char) -> (b: bool)
    ensures
        b == is_whitespace(c),
{
    let u: u32 = c as u32;
    (0x09 <= u && u <= 0x0D) || u == 0x20 || u == 0x85 || u == 0xA0 || u == 0x1680 || (0x2000 <= u
        && u <= 0x200A) || u == 0x2028 || u == 0x2029 || u == 0x202F || u == 0x205F || u == 0x3000
}

/// Index in `v[from..to]` where the leading whitespace ends.
pub(crate) fn skip_whitespace(v: &Vec<char>, from: usize, to: usize) -> (at: usize)
    requires
        from <= to <= v.len(),
    ensures
        from <= at <= to,
        v@.subrange(at as int, to as int) == trim_start(v@.subrange(from as int, to as int)),
{
    let mut at: usize = from;
    while at < to && char_is_whitespace(v[at])
        invariant
            from <= at <= to <= v.len(),
            trim_start(v@.subrange(at as int, to as int)) == trim_start(
                v@.subrange(from as int, to as int),
            ),
        decreases to - at,
    {
        assert(v@.subrange(at as int, to as int).drop_first() =~= v@.subrange(
            at as int + 1,
            to as int,
        ));
        at = at + 1;
    }
    at
}

/// Index in `v[from..to]` where the trailing whitespace begins.
pub(crate) fn skip_whitespace_back(v: &Vec<char>, from: usize, to: usize) -> (at: usize)
    requires
        from <= to <= v.len(),
    ensures
        from <= at <= to,
        v@.subrange(from as int, at as int) == trim_end(v@.subrange(from as int, to as int)),
{
    let mut at: usize = to;
    while at > from && char_is_whitespace(v[at - 1])
        invariant
            from <= at <= to <= v.len(),
            trim_end(v@.subrange(from as int, at as int)) == trim_end(
                v@.subrange(from as int, to as int),
            ),
        decreases at - from,
    {
        assert(v@.subrange(from as int, at as int).drop_last() =~= v@.subrange(
            from as int,
            at as int - 1,
        ));
        at = at - 1;
    }
    at
}

/// Bounds of `v[from..to]` without the whitespace at both ends.
pub(crate) fn trim_range(v: &Vec<char>, from: usize, to: usize) -> (r: (usize, usize))
    requires
        from <= to <= v.len(),
    ensures
        from <= r.0 <= r.1 <= to,
        v@.subrange(r.0 as int, r.1 as int) == trim(v@.subrange(from as int, to as int)),
{
    let start = skip_whitespace(v, from, to);
    let end = skip_whitespace_back(v, start, to);
    (start, end)
}

/// Index in `v[from..to]` of the first whitespace character, or `to`.
pub(crate) fn word_end(v: &Vec<char>, from: usize, to: usize) -> (at: usize)
    requires
        from <= to <= v.len(),
    ensures
        from <= at <= to,
        at - from == word_len(v@.subrange(from as int, to as int)),
{
    let mut at: usize = from;
    while at < to && !char_is_whitespace(v[at])
        invariant
            from <= at <= to <= v.len(),
            word_len(v@.subrange(from as int, to as int)) == (at - from) + word_len(
                v@.subrange(at as int, to as int),
            ),
        decreases to - at,
    {
        assert(v@.subrange(at as int, to as int).drop_first() =~= v@.subrange(
            at as int + 1,
            to as int,
        ));
        at = at + 1;
    }
    at
}

/// Index in `v[from..to]` of the first `c`, or `to`.
pub(crate) fn find_char(v: &Vec<char>, from: usize, to: usize, c: char) -> (at: usize)
    requires
        from <= to <= v.len(),
    ensures
        from <= at <= to,
        at - from == position_of(v@.subrange(from as int, to as int), c),
{
    let mut at: usize = from;
    while at < to && v[at] != c
        invariant
            from <= at <= to <= v.len(),
            position_of(v@.subrange(from as int, to as int), c) == (at - from) + position_of(
                v@.subrange(at as int, to as int),
                c,
            ),
        decreases to - at,
    {
        assert(v@.subrange(at as int, to as int).drop_first() =~= v@.subrange(
            at as int + 1,
            to as int,
        ));
        at = at + 1;
    }
    at
}

/// Tells whether `v[from..to]` begins with `prefix`.
pub(crate) fn starts_with_at(v: &Vec<char>, from: usize, to: usize, prefix: &Vec<char>) -> (b: bool)
    requires
        from <= to <= v.len(),
    ensures
        b == has_prefix(v@.subrange(from as int, to as int), prefix@),
{
    let ghost s = v@.subrange(from as int, to as int);
    if prefix.len() > to - from {
        return false;
    }
    let mut i: usize = 0;
    while i < prefix.len()
        invariant
            from <= to <= v.len(),
            i <= prefix.len() <= to - from,
            s == v@.subrange(from as int, to as int),
            forall|j: int| 0 <= j < i ==> s[j] == prefix@[j],
        decreases prefix.len() - i,
    {
        if v[from + i] != prefix[i] {
            assert(s.take(prefix.len() as int)[i as int] != prefix@[i as int]);
            return false;
        }
        i = i + 1;
    }
    assert(s.take(prefix.len() as int) =~= prefix@);
    true
}

/// Reads `v[from..to]` as an unsigned decimal number.
pub(crate) fn parse_u64_at(v: &Vec<char>, from: usize, to: usize) -> (r: Option<u64>)
    requires
        from <= to <= v.len(),
    ensures
        r == parse_u64(v@.subrange(from as int, to as int)),
{
    let ghost s = v@.subrange(from as int, to as int);
    let start: usize = if from < to && v[from] == '+' {
        from + 1
    } else {
        from
    };
    let ghost body = v@.subrange(start as int, to as int);
    assert(body =~= unsigned_body(s));
    if start == to {
        return None;
    }
    let mut value: u64 = 0;
    let mut i: usize = start;
    while i < to
        invariant
            start <= i <= to <= v.len(),
            start < to,
            s == v@.subrange(from as int, to as int),
            body == v@.subrange(start as int, to as int),
            body == unsigned_body(s),
            all_digits(body.take(i - start)),
            value == digits_value(body.take(i - start)),
        decreases to - i,
    {
        let c = v[i];
        let u: u32 = c as u32;
        if u < 0x30 || u > 0x39 {
            assert(!is_digit(body[i - start]));
            return None;
        }
        let d: u64 = (u - 0x30) as u64;
        let ghost next = body.take(i - start + 1);
        proof {
            assert(next.drop_last() =~= body.take(i - start));
            assert(next.last() == c);
            assert(digits_value(next) == value * 10 + d);
            lemma_digits_value_prefix(body, i - start + 1);
            assert forall|j: int| 0 <= j < next.len() implies is_digit(#[trigger] next[j]) by {
                if j < next.len() - 1 {
                    assert(next[j] == body.take(i - start)[j]);
                }
            }
        }
        let scaled = match value.checked_mul(10) {
            Some(x) => x,
            None => {
                return None;
            },
        };
        let sum = match scaled.checked_add(d) {
            Some(x) => x,
            None => {
                return None;
            },
        };
        value = sum;
        i = i + 1;
    }
    assert(body.take(to - start) =~= body);
    Some(value)
}

/// What a list of strings holds, string by string.
pub open spec fn string_views(list: Seq<String>) -> Seq<Seq<char>> {
    list.map_values(|s: String| s@)
}

/// `list` without every occurrence of `item`, the rest in order.
pub open spec fn without(list: Seq<Seq<char>>, item: Seq<char>) -> Seq<Seq<char>> {
    list.filter(|p: Seq<char>| p != item)
}

/// Nothing occurs twice in `list`.
pub open spec fn distinct(list: Seq<Seq<char>>) -> bool {
    list.no_duplicates()
}

/// What `without` keeps: each item other than `item`, as often and in the
/// order in which `list` holds it.
pub proof fn lemma_without(list: Seq<Seq<char>>, item: Seq<char>)
    ensures
        !without(list, item).contains(item),
        without(list, item).len() <= list.len(),
        forall|p: Seq<char>| p != item ==> (without(list, item).contains(p) <==> list.contains(p)),
        distinct(list) ==> distinct(without(list, item)),
        !list.contains(item) ==> without(list, item) == list,
    decreases list.len(),
{
    reveal(Seq::filter);
    let keep = |p: Seq<char>| p != item;
    if list.len() > 0 {
        let front = list.drop_last();
        let last = list.last();
        lemma_without(front, item);
        let kept = without(front, item);
        let all = without(list, item);
        assert(all == if keep(last) {
            kept.push(last)
        } else {
            kept
        });
        assert forall|p: Seq<char>| p != item implies (all.contains(p) <==> list.contains(p)) by {
            assert(kept.contains(p) <==> front.contains(p));
            if all.contains(p) {
                let i = choose|i: int| 0 <= i < all.len() && all[i] == p;
                if i < kept.len() {
                    assert(kept[i] == p);
                    assert(kept.contains(p));
                    assert(front.contains(p));
                    let j = choose|j: int| 0 <= j < front.len() && front[j] == p;
                    assert(list[j] == p);
                } else {
                    assert(list[list.len() - 1] == p);
                }
                assert(list.contains(p));
            }
            if list.contains(p) {
                let j = choose|j: int| 0 <= j < list.len() && list[j] == p;
                if j < front.len() {
                    assert(front[j] == p);
                    assert(front.contains(p));
                    assert(kept.contains(p));
                    let i = choose|i: int| 0 <= i < kept.len() && kept[i] == p;
                    assert(all[i] == p);
                } else {
                    assert(last == p);
                    assert(all[all.len() - 1] == p);
                }
                assert(all.contains(p));
            }
        }
        if all.contains(item) {
            let i = choose|i: int| 0 <= i < all.len() && all[i] == item;
            if i < kept.len() {
                assert(kept[i] == item);
                assert(kept.contains(item));
            }
        }
        if distinct(list) {
            assert forall|i: int, j: int|
                0 <= i < front.len() && 0 <= j < front.len() && i != j implies front[i]
                != front[j] by {
                assert(front[i] == list[i] && front[j] == list[j]);
            }
            assert forall|i: int, j: int|
                0 <= i < all.len() && 0 <= j < all.len() && i != j implies all[i] != all[j] by {
                let (a, b) = if i < j {
                    (i, j)
                } else {
                    (j, i)
                };
                if b == kept.len() {
                    assert(kept[a] == all[a]);
                    assert(kept.contains(all[a]));
                    assert(front.contains(all[a]));
                    let k = choose|k: int| 0 <= k < front.len() && front[k] == all[a];
                    assert(list[k] == all[a]);
                } else {
                    assert(kept[a] == all[a] && kept[b] == all[b]);
                }
            }
        }
        if !list.contains(item) {
            assert(last == list[list.len() - 1]);
            assert(!front.contains(item)) by {
                if front.contains(item) {
                    let k = choose|k: int| 0 <= k < front.len() && front[k] == item;
                    assert(list[k] == item);
                }
            }
            assert(all =~= list);
        }
    } else {
        assert(without(list, item) =~= list);
    }
}

/// Tells whether `list` holds `item`.
pub fn list_contains(list: &Vec<String>, item: &String) -> (found: bool)
    ensures
        found == string_views(list@).contains(item@),
{
    let mut i: usize = 0;
    while i < list.len()
        invariant
            i <= list.len(),
            forall|j: int| 0 <= j < i ==> string_views(list@)[j] != item@,
        decreases list.len() - i,
    {
        if list[i] == *item {
            assert(string_views(list@)[i as int] == item@);
            return true;
        }
        i = i + 1;
    }
    false
}

/// Removes every occurrence of `item` from `list` and keeps the rest in
/// order.
pub fn remove_all(list: &mut Vec<String>, item: &String)
    ensures
        string_views(final(list)@) == without(string_views(old(list)@), item@),
{
    let ghost before = string_views(list@);
    let mut kept: Vec<String> = Vec::new();
    let mut i: usize = 0;
    proof {
        reveal(Seq::filter);
        assert(before.take(0) =~= Seq::<Seq<char>>::empty());
    }
    while i < list.len()
        invariant
            i <= list.len(),
            before == string_views(list@),
            string_views(kept@) == without(before.take(i as int), item@),
        decreases list.len() - i,
    {
        proof {
            reveal(Seq::filter);
            assert(before.take(i + 1).drop_last() =~= before.take(i as int));
            assert(before.take(i + 1).last() == list@[i as int]@);
        }
        let ghost old_kept = string_views(kept@);
        if list[i] != *item {
            kept.push(list[i].clone());
            assert(string_views(kept@) =~= old_kept.push(list@[i as int]@));
        }
        i = i + 1;
    }
    assert(before.take(list.len() as int) =~= before);
    *list = kept;
}

/// `a` does not come after `b` in the order of strings: character by
/// character by code point, a prefix before what it is a prefix of.
pub open spec fn lex_leq(a: Seq<char>, b: Seq<char>) -> bool
    decreases a.len(),
{
    if a.len() == 0 {
        true
    } else if b.len() == 0 {
        false
    } else if a[0] as u32 != b[0] as u32 {
        (a[0] as u32) < (b[0] as u32)
    } else {
        lex_leq(a.drop_first(), b.drop_first())
    }
}

/// Of two strings one does not come after the other.
pub proof fn lemma_lex_total(a: Seq<char>, b: Seq<char>)
    ensures
        lex_leq(a, b) || lex_leq(b, a),
    decreases a.len(),
{
    if a.len() > 0 && b.len() > 0 && a[0] as u32 == b[0] as u32 {
        lemma_lex_total(a.drop_first(), b.drop_first());
    }
}

/// The order of strings is transitive.
pub proof fn lemma_lex_transitive(a: Seq<char>, b: Seq<char>, c: Seq<char>)
    requires
        lex_leq(a, b),
        lex_leq(b, c),
    ensures
        lex_leq(a, c),
    decreases a.len(),
{
    if a.len() > 0 && b.len() > 0 && c.len() > 0 && a[0] as u32 == b[0] as u32 && b[0] as u32
        == c[0] as u32 {
        lemma_lex_transitive(a.drop_first(), b.drop_first(), c.drop_first());
    }
}

/// Tells whether `a` does not come after `b` in the order of strings.
pub fn chars_leq(a: &Vec<char>, b: &Vec<char>) -> (r: bool)
    ensures
        r == lex_leq(a@, b@),
{
    let mut i: usize = 0;
    assert(a@.subrange(0, a.len() as int) =~= a@);
    assert(b@.subrange(0, b.len() as int) =~= b@);
    while i < a.len() && i < b.len()
        invariant
            i <= a.len(),
            i <= b.len(),
            lex_leq(a@, b@) == lex_leq(
                a@.subrange(i as int, a.len() as int),
                b@.subrange(i as int, b.len() as int),
            ),
        decreases a.len() - i,
    {
        let x: u32 = a[i] as u32;
        let y: u32 = b[i] as u32;
        if x != y {
            return x < y;
        }
        assert(a@.subrange(i as int, a.len() as int).drop_first() =~= a@.subrange(
            i as int + 1,
            a.len() as int,
        ));
        assert(b@.subrange(i as int, b.len() as int).drop_first() =~= b@.subrange(
            i as int + 1,
            b.len() as int,
        ));
        i = i + 1;
    }
    i == a.len()
}

/// The lower-case form of a string, as `str::to_lowercase` gives it by the
/// rules of Unicode.
pub uninterp spec fn lowercase_of(s: Seq<char>) -> Seq<char>;

/// `str::to_lowercase`: the lower-case form of `s`. The result is what
/// `lowercase_of` names.
#[verifier::external_body]
pub(crate) fn lowercase(s: &String) -> (lower: String)
    ensures
        lower@ == lowercase_of(s@),
{
    s.to_lowercase()
}

} // verus!
