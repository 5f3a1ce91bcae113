//! Tool names: stable identifiers made from endpoint paths, each used once.

use vstd::hash_set::StringHashSet;
use vstd::prelude::*;

verus! {

/// `String::push`: the character is appended.
pub assume_specification[ String::push ](s: &mut String, c: char)
    ensures
        final(s)@ == old(s)@.push(c),
;

/// A letter, a digit, `_` or `-`: what a tool name may hold.
pub open spec fn name_char(c: char) -> bool {
    ||| 'A' <= c <= 'Z'
    ||| 'a' <= c <= 'z'
    ||| '0' <= c <= '9'
    ||| c == '_'
    ||| c == '-'
}

/// A character as it stands in a name: every other one becomes `_`.
pub open spec fn cleaned(c: char) -> char {
    if name_char(c) {
        c
    } else {
        '_'
    }
}

/// `s` without the `c`s that it starts with.
pub open spec fn trim_start(s: Seq<char>, c: char) -> Seq<char>
    decreases s.len(),
{
    if s.len() > 0 && s.first() == c {
        trim_start(s.drop_first(), c)
    } else {
        s
    }
}

/// `s` without the `c`s that it ends with.
pub open spec fn trim_end(s: Seq<char>, c: char) -> Seq<char>
    decreases s.len(),
{
    if s.len() > 0 && s.last() == c {
        trim_end(s.drop_last(), c)
    } else {
        s
    }
}

/// A raw name as an identifier: leading slashes dropped, every character that a
/// name may not hold replaced by `_`, and then the `_` at both ends dropped.
pub open spec fn sanitized(raw: Seq<char>) -> Seq<char> {
    let body = trim_start(raw, '/').map_values(|c: char| cleaned(c));
    trim_end(trim_start(body, '_'), '_')
}

/// The decimal digit for `d`.
pub open spec fn digit(d: nat) -> char {
    (0x30 + d) as char
}

/// `n` in decimal, without leading zeros.
pub open spec fn decimal(n: nat) -> Seq<char>
    decreases n,
{
    if n < 10 {
        seq![digit(n)]
    } else {
        decimal(n / 10).push(digit(n % 10))
    }
}

/// The `k`-th name to try for a base, counted from 1: the base itself, and then
/// the base with the suffix `_2`, `_3`, and so on.
pub open spec fn candidate(base: Seq<char>, k: nat) -> Seq<char> {
    if k <= 1 {
        base
    } else {
        base.push('_') + decimal(k)
    }
}

/// The `k`-th candidate is the first that is not in use.
pub open spec fn first_free(used: Set<Seq<char>>, base: Seq<char>, k: nat) -> bool {
    &&& k >= 1
    &&& !used.contains(candidate(base, k))
    &&& forall|j: nat| 1 <= j < k ==> used.contains(#[trigger] candidate(base, j))
}

/// The first candidate that is not in use.
pub open spec fn allocated(used: Set<Seq<char>>, base: Seq<char>) -> Seq<char> {
    candidate(base, choose|k: nat| first_free(used, base, k))
}

/// The character as it stands in a name.
fn clean(c: char) -> (r: char)
    ensures
        r == cleaned(c),
{
    if ('A' <= c && c <= 'Z') || ('a' <= c && c <= 'z') || ('0' <= c && c <= '9') || c == '_' || c
        == '-' {
        c
    } else {
        '_'
    }
}

/// Make an identifier of a raw name.
pub fn sanitize(raw: &str) -> (name: String)
    ensures
        name@ == sanitized(raw@),
{
    let mut body: Vec<char> = Vec::new();
    let ghost all = raw@;
    for c in it: raw.chars()
        invariant
            it.seq() == all,
            body@ == trim_start(all.take(it.index() as int), '/').map_values(
                |c: char| cleaned(c),
            ),
    {
        proof {
            let k = it.index() as int;
            assert(all.take(k + 1) =~= all.take(k).push(all[k]));
            lemma_trim_start_push(all.take(k), c, '/');
        }
        if body.len() > 0 || c != '/' {
            body.push(clean(c));
        }
        assert(body@ =~= trim_start(all.take(it.index() as int + 1), '/').map_values(
            |c: char| cleaned(c),
        ));
    }
    assert(all.take(all.len() as int) =~= all);
    let mut start: usize = 0;
    assert(body@.skip(0) =~= body@);
    while start < body.len() && body[start] == '_'
        invariant
            start <= body@.len(),
            trim_start(body@, '_') == trim_start(body@.skip(start as int), '_'),
        decreases body@.len() - start,
    {
        assert(body@.skip(start as int).drop_first() =~= body@.skip(start + 1));
        start = start + 1;
    }
    let mut end: usize = body.len();
    let ghost rest = body@.skip(start as int);
    assert(rest.take(rest.len() as int) =~= rest);
    while end > start && body[end - 1] == '_'
        invariant
            start <= end <= body@.len(),
            rest == body@.skip(start as int),
            trim_end(rest, '_') == trim_end(rest.take(end - start), '_'),
        decreases end,
    {
        assert(rest.take(end - start).drop_last() =~= rest.take(end - start - 1));
        end = end - 1;
    }
    let mut name = String::new();
    let mut i: usize = start;
    while i < end
        invariant
            start <= i <= end <= body@.len(),
            rest == body@.skip(start as int),
            name@ == rest.take(i - start),
        decreases end - i,
    {
        assert(rest.take(i - start + 1) =~= rest.take(i - start).push(rest[i - start]));
        name.push(body[i]);
        i = i + 1;
    }
    name
}

/// Trimming commutes with appending a character, unless all was trimmed and the
/// character is trimmed too.
proof fn lemma_trim_start_push(s: Seq<char>, last: char, c: char)
    ensures
        trim_start(s.push(last), c) == if trim_start(s, c).len() == 0 && last == c {
            Seq::empty()
        } else {
            trim_start(s, c).push(last)
        },
    decreases s.len(),
{
    if s.len() > 0 {
        assert(s.push(last).drop_first() =~= s.drop_first().push(last));
        lemma_trim_start_push(s.drop_first(), last, c);
    } else {
        assert(s.push(last).drop_first() =~= Seq::<char>::empty());
        assert(s =~= Seq::<char>::empty());
    }
}

/// `n` in decimal.
fn to_decimal(n: usize) -> (text: String)
    ensures
        text@ == decimal(n as nat),
    decreases n,
{
    let last = (48u8 + (n % 10) as u8) as char;
    let mut text = if n < 10 {
        String::new()
    } else {
        to_decimal(n / 10)
    };
    text.push(last);
    assert(n < 10 ==> text@ =~= seq![last]);
    text
}

/// The name to try at place `k` for a base.
fn nth_candidate(base: &str, k: usize) -> (name: String)
    ensures
        name@ == candidate(base@, k as nat),
{
    let mut name = base.to_owned();
    if k > 1 {
        name.push('_');
        name.append(to_decimal(k).as_str());
    }
    name
}

/// Take the first name for a base that is not in use yet.
pub(crate) fn allocate(used: &mut StringHashSet, base: &str) -> (name: String)
    requires
        old(used)@.finite(),
        old(used)@.len() < usize::MAX,
    ensures
        name@ == allocated(old(used)@, base@),
        !old(used)@.contains(name@),
        final(used)@ == old(used)@.insert(name@),
{
    let ghost before = used@;
    let mut k: usize = 1;
    let mut name = nth_candidate(base, k);
    while !used.insert(name.clone())
        invariant_except_break
            used@ == before,
        invariant
            before.finite(),
            before.len() < usize::MAX,
            1 <= k <= before.len() + 1,
            name@ == candidate(base@, k as nat),
            forall|j: nat| 1 <= j < k ==> before.contains(#[trigger] candidate(base@, j)),
        ensures
            !before.contains(name@),
            used@ == before.insert(name@),
        decreases before.len() + 1 - k,
    {
        proof {
            assert(before.insert(name@) =~= before);
            lemma_pigeonhole(before, base@, k as nat);
        }
        k = k + 1;
        name = nth_candidate(base, k);
    }
    proof {
        assert(first_free(before, base@, k as nat));
        lemma_first_free_unique(
            before,
            base@,
            k as nat,
            choose|k: nat| first_free(before, base@, k),
        );
    }
    name
}

/// The number that a decimal text denotes.
spec fn value(digits: Seq<char>) -> int
    decreases digits.len(),
{
    if digits.len() == 0 {
        0
    } else {
        value(digits.drop_last()) * 10 + (digits.last() as int - 0x30)
    }
}

proof fn lemma_value_of_decimal(n: nat)
    ensures
        value(decimal(n)) == n,
        decimal(n).len() > 0,
        '0' <= decimal(n).last() <= '9',
        forall|i: int| 0 <= i < decimal(n).len() ==> '0' <= #[trigger] decimal(n)[i] <= '9',
    decreases n,
{
    if n < 10 {
        assert(decimal(n).drop_last() =~= Seq::<char>::empty());
        assert(value(Seq::<char>::empty()) == 0);
    } else {
        lemma_value_of_decimal(n / 10);
        assert(decimal(n).drop_last() =~= decimal(n / 10));
    }
}

/// Two places never yield the same name.
proof fn lemma_candidates_differ(base: Seq<char>, j: nat, k: nat)
    requires
        1 <= j < k,
    ensures
        candidate(base, j) != candidate(base, k),
{
    lemma_value_of_decimal(j);
    lemma_value_of_decimal(k);
    if j == 1 {
        assert(candidate(base, k).len() > base.len());
    } else if candidate(base, j) == candidate(base, k) {
        let n = base.len() as int + 1;
        assert(candidate(base, j).skip(n) =~= decimal(j));
        assert(candidate(base, k).skip(n) =~= decimal(k));
    }
}

/// Where the first `k` names of a base are all in use, at least `k` names are.
proof fn lemma_pigeonhole(used: Set<Seq<char>>, base: Seq<char>, k: nat)
    requires
        used.finite(),
        forall|j: nat| 1 <= j <= k ==> used.contains(#[trigger] candidate(base, j)),
    ensures
        k <= used.len(),
    decreases k,
{
    if k > 0 {
        let top = candidate(base, k);
        let fewer = used.remove(top);
        assert forall|j: nat| 1 <= j <= k - 1 implies fewer.contains(
            #[trigger] candidate(base, j),
        ) by {
            lemma_candidates_differ(base, j, k);
        }
        lemma_pigeonhole(fewer, base, (k - 1) as nat);
    }
}

proof fn lemma_first_free_unique(used: Set<Seq<char>>, base: Seq<char>, j: nat, k: nat)
    requires
        first_free(used, base, j),
        first_free(used, base, k),
    ensures
        j == k,
{
    if j < k {
        assert(used.contains(candidate(base, j)));
    }
    if k < j {
        assert(used.contains(candidate(base, k)));
    }
}

/// As long as finitely many names are in use, a base has a first free name.
proof fn lemma_first_free_exists(used: Set<Seq<char>>, base: Seq<char>, from: nat)
    requires
        used.finite(),
        1 <= from,
        forall|j: nat| 1 <= j < from ==> used.contains(#[trigger] candidate(base, j)),
    ensures
        exists|k: nat| first_free(used, base, k),
    decreases used.len() + 1 - from,
{
    if used.contains(candidate(base, from)) {
        lemma_pigeonhole(used, base, from);
        lemma_first_free_exists(used, base, from + 1);
    } else {
        assert(first_free(used, base, from));
    }
}

/// A name that clients can rely on: not empty, only letters, digits, `_` and `-`,
/// and no `_` at either end.
pub open spec fn identifier(name: Seq<char>) -> bool {
    &&& name.len() > 0
    &&& forall|i: int| 0 <= i < name.len() ==> name_char(#[trigger] name[i])
    &&& name.first() != '_'
    &&& name.last() != '_'
}

/// Sanitizing yields an identifier or nothing.
pub proof fn law_sanitized_is_an_identifier(raw: Seq<char>)
    ensures
        sanitized(raw).len() > 0 ==> identifier(sanitized(raw)),
{
    let body = trim_start(raw, '/').map_values(|c: char| cleaned(c));
    lemma_trim_start_is_suffix(body, '_');
    let rest = trim_start(body, '_');
    lemma_trim_end_is_prefix(rest, '_');
}

/// Sanitizing an identifier leaves it as it is.
pub proof fn law_sanitizing_keeps_identifiers(name: Seq<char>)
    requires
        identifier(name),
    ensures
        sanitized(name) == name,
{
    assert(name_char(name.first()));
    assert(trim_start(name, '/') == name);
    assert(name.map_values(|c: char| cleaned(c)) =~= name);
}

/// Sanitizing twice is sanitizing once.
pub proof fn law_sanitizing_is_idempotent(raw: Seq<char>)
    ensures
        sanitized(sanitized(raw)) == sanitized(raw),
{
    if sanitized(raw).len() > 0 {
        law_sanitized_is_an_identifier(raw);
        law_sanitizing_keeps_identifiers(sanitized(raw));
    } else {
        let empty = sanitized(raw);
        assert(trim_start(empty, '/') == empty);
        assert(empty.map_values(|c: char| cleaned(c)) =~= empty);
    }
}

/// A leading slash does not matter.
pub proof fn law_leading_slash_does_not_matter(raw: Seq<char>)
    ensures
        sanitized(seq!['/'] + raw) == sanitized(raw),
{
    assert((seq!['/'] + raw).drop_first() =~= raw);
    assert((seq!['/'] + raw).first() == '/');
}

/// An identifier behind a slash is sanitized to the identifier, however long it is.
pub proof fn law_path_of_an_identifier_is_the_identifier(name: Seq<char>)
    requires
        identifier(name),
    ensures
        sanitized(seq!['/'] + name) == name,
{
    law_leading_slash_does_not_matter(name);
    law_sanitizing_keeps_identifiers(name);
}

/// Where a raw name is cut, and what becomes of each character between: `cut.0`
/// slashes lead; from there to `cut.1` and from `cut.2` on stands nothing but `_`
/// and what becomes `_`; all between is kept, place by place, with `_` for what a
/// name may not hold. It begins and ends with a letter, a digit or `-`.
pub proof fn law_sanitized_place_by_place(raw: Seq<char>) -> (cut: (int, int, int))
    ensures
        0 <= cut.0 <= cut.1 <= cut.2 <= raw.len(),
        forall|k: int| 0 <= k < cut.0 ==> #[trigger] raw[k] == '/',
        cut.0 < raw.len() ==> raw[cut.0] != '/',
        forall|k: int|
            cut.0 <= k < cut.1 ==> #[trigger] raw[k] == '_' || !name_char(raw[k]),
        forall|k: int|
            cut.2 <= k < raw.len() ==> #[trigger] raw[k] == '_' || !name_char(raw[k]),
        cut.1 < cut.2 ==> {
            &&& raw[cut.1] != '_' && name_char(raw[cut.1])
            &&& raw[cut.2 - 1] != '_' && name_char(raw[cut.2 - 1])
        },
        sanitized(raw).len() == cut.2 - cut.1,
        forall|i: int|
            0 <= i < cut.2 - cut.1 ==> #[trigger] sanitized(raw)[i] == if name_char(
                raw[cut.1 + i],
            ) {
                raw[cut.1 + i]
            } else {
                '_'
            },
{
    let lead = lemma_trim_start_at(raw, '/');
    let path = raw.skip(lead);
    let body = path.map_values(|c: char| cleaned(c));
    let a = lemma_trim_start_at(body, '_');
    let rest = body.skip(a);
    let b = lemma_trim_end_at(rest, '_');
    let start = lead + a;
    let end = start + b;
    assert(sanitized(raw) == rest.take(b));
    assert forall|k: int| lead <= k < start implies #[trigger] raw[k] == '_' || !name_char(
        raw[k],
    ) by {
        assert(body[k - lead] == cleaned(raw[k]));
    }
    assert forall|k: int| end <= k < raw.len() implies #[trigger] raw[k] == '_' || !name_char(
        raw[k],
    ) by {
        assert(rest[k - start] == cleaned(raw[k]));
    }
    if start < end {
        assert(body[a] == cleaned(raw[start]));
        assert(rest[b - 1] == cleaned(raw[end - 1]));
    }
    assert forall|i: int| 0 <= i < end - start implies #[trigger] sanitized(raw)[i] == if name_char(
        raw[start + i],
    ) {
        raw[start + i]
    } else {
        '_'
    } by {
        assert(sanitized(raw)[i] == cleaned(raw[start + i]));
    }
    (lead, start, end)
}

/// What a name may hold: letters, digits, `_` and `-`.
pub proof fn law_name_characters(c: char)
    ensures
        name_char(c)
            <==> "ABCDEFGHIJKLMNOPQRSTUVWXYZabcdefghijklmnopqrstuvwxyz0123456789_-"@.contains(c),
{
    reveal_strlit("ABCDEFGHIJKLMNOPQRSTUVWXYZabcdefghijklmnopqrstuvwxyz0123456789_-");
    let all = "ABCDEFGHIJKLMNOPQRSTUVWXYZabcdefghijklmnopqrstuvwxyz0123456789_-"@;
    if name_char(c) {
        let i = if 'A' <= c <= 'Z' {
            c as int - 'A' as int
        } else if 'a' <= c <= 'z' {
            c as int - 'a' as int + 26
        } else if '0' <= c <= '9' {
            c as int - '0' as int + 52
        } else if c == '_' {
            62
        } else {
            63
        };
        assert(all[i] == c);
    }
}

/// A number below ten is written as its digit, and of every other number the last
/// digit is written behind what is written for the rest.
pub proof fn law_decimal_digits(n: nat, d: nat)
    requires
        d < 10,
    ensures
        decimal(d) == seq!["0123456789"@[d as int]],
        n > 0 ==> decimal(n * 10 + d) == decimal(n).push("0123456789"@[d as int]),
{
    reveal_strlit("0123456789");
    assert((n * 10 + d) / 10 == n && (n * 10 + d) % 10 == d);
}

/// The first name to try for a base is the base; the `k`-th is the base, `_` and `k`
/// in decimal. No two of them are alike.
pub proof fn law_candidates(base: Seq<char>, j: nat, k: nat)
    ensures
        candidate(base, 1) == base,
        k >= 2 ==> candidate(base, k) == base + seq!['_'] + decimal(k),
        1 <= j && 1 <= k && j != k ==> candidate(base, j) != candidate(base, k),
{
    if k >= 2 {
        assert(candidate(base, k) =~= base + seq!['_'] + decimal(k));
    }
    if 1 <= j < k {
        lemma_candidates_differ(base, j, k);
    }
    if 1 <= k < j {
        lemma_candidates_differ(base, k, j);
    }
}

/// Allocating takes the first name that is free: the base, `base_2`, `base_3` and so
/// on are all in use up to the one that is taken.
pub proof fn law_names_are_tried_in_order(used: Set<Seq<char>>, base: Seq<char>) -> (k: nat)
    requires
        used.finite(),
    ensures
        k >= 1,
        allocated(used, base) == if k == 1 {
            base
        } else {
            base + seq!['_'] + decimal(k)
        },
        !used.contains(allocated(used, base)),
        k >= 2 ==> used.contains(base),
        forall|j: nat|
            2 <= j < k ==> used.contains(base + seq!['_'] + #[trigger] decimal(j)),
{
    lemma_first_free_exists(used, base, 1);
    let k = choose|k: nat| first_free(used, base, k);
    law_candidates(base, 1, k);
    if k >= 2 {
        assert(used.contains(candidate(base, 1)));
    }
    assert forall|j: nat| 2 <= j < k implies used.contains(
        base + seq!['_'] + #[trigger] decimal(j),
    ) by {
        law_candidates(base, 1, j);
        assert(used.contains(candidate(base, j)));
    }
    k
}

/// An allocated name was not in use, and all names tried before it were.
pub proof fn law_allocated_name_is_the_first_free(used: Set<Seq<char>>, base: Seq<char>)
    requires
        used.finite(),
    ensures
        !used.contains(allocated(used, base)),
        exists|k: nat| #[trigger] first_free(used, base, k) && allocated(used, base) == candidate(
            base,
            k,
        ),
{
    lemma_first_free_exists(used, base, 1);
}

/// A base that is not in use is allocated as it is.
pub proof fn law_free_base_is_kept(used: Set<Seq<char>>, base: Seq<char>)
    requires
        !used.contains(base),
    ensures
        allocated(used, base) == base,
{
    assert(first_free(used, base, 1));
    lemma_first_free_unique(used, base, 1, choose|k: nat| first_free(used, base, k));
}

/// A name allocated for an identifier is an identifier.
pub proof fn law_allocated_name_is_an_identifier(used: Set<Seq<char>>, base: Seq<char>)
    requires
        identifier(base),
    ensures
        identifier(allocated(used, base)),
{
    let k = choose|k: nat| first_free(used, base, k);
    lemma_value_of_decimal(k);
    let name = candidate(base, k);
    if k > 1 {
        assert forall|i: int| 0 <= i < name.len() implies name_char(#[trigger] name[i]) by {
            if i < base.len() {
                assert(name_char(base[i]));
            } else if i > base.len() {
                assert(name[i] == decimal(k)[i - base.len() - 1]);
            }
        }
    }
}

proof fn lemma_trim_start_is_suffix(s: Seq<char>, c: char)
    ensures
        trim_start(s, c).len() <= s.len(),
        trim_start(s, c) == s.skip(s.len() - trim_start(s, c).len()),
        trim_start(s, c).len() > 0 ==> trim_start(s, c).first() != c,
    decreases s.len(),
{
    if s.len() > 0 && s.first() == c {
        lemma_trim_start_is_suffix(s.drop_first(), c);
        let n = s.len() - trim_start(s, c).len();
        assert(s.drop_first().skip(n - 1) =~= s.skip(n));
    } else {
        assert(s.skip(0) =~= s);
    }
}

proof fn lemma_trim_end_is_prefix(s: Seq<char>, c: char)
    ensures
        trim_end(s, c).len() <= s.len(),
        trim_end(s, c) == s.take(trim_end(s, c).len() as int),
        trim_end(s, c).len() > 0 ==> trim_end(s, c).last() != c,
    decreases s.len(),
{
    if s.len() > 0 && s.last() == c {
        lemma_trim_end_is_prefix(s.drop_last(), c);
        let n = trim_end(s, c).len() as int;
        assert(s.drop_last().take(n) =~= s.take(n));
    } else {
        assert(s.take(s.len() as int) =~= s);
    }
}

/// Where trimming at the start stops.
proof fn lemma_trim_start_at(s: Seq<char>, c: char) -> (n: int)
    ensures
        0 <= n <= s.len(),
        trim_start(s, c) == s.skip(n),
        forall|i: int| 0 <= i < n ==> #[trigger] s[i] == c,
        n < s.len() ==> s[n] != c,
    decreases s.len(),
{
    if s.len() > 0 && s.first() == c {
        let shorter = s.drop_first();
        let n = lemma_trim_start_at(shorter, c);
        assert(shorter.skip(n) =~= s.skip(n + 1));
        assert forall|i: int| 0 <= i < n + 1 implies #[trigger] s[i] == c by {
            if i > 0 {
                assert(shorter[i - 1] == s[i]);
            }
        }
        n + 1
    } else {
        assert(s.skip(0) =~= s);
        0
    }
}

/// Where trimming at the end stops.
proof fn lemma_trim_end_at(s: Seq<char>, c: char) -> (n: int)
    ensures
        0 <= n <= s.len(),
        trim_end(s, c) == s.take(n),
        forall|i: int| n <= i < s.len() ==> #[trigger] s[i] == c,
        n > 0 ==> s[n - 1] != c,
    decreases s.len(),
{
    if s.len() > 0 && s.last() == c {
        let shorter = s.drop_last();
        let n = lemma_trim_end_at(shorter, c);
        assert(shorter.take(n) =~= s.take(n));
        assert forall|i: int| n <= i < s.len() implies #[trigger] s[i] == c by {
            if i < shorter.len() {
                assert(shorter[i] == s[i]);
            }
        }
        n
    } else {
        assert(s.take(s.len() as int) =~= s);
        s.len() as int
    }
}

} // verus!
