//! The kinds that are counted and named, in their canonical order, and the
//! lists of kind names.

use vstd::prelude::*;
use crate::event::{
    overlaps, EventMask, ACCESS, ALL_EVENTS, ATTRIB, CLOSE, CLOSE_NOWRITE, CLOSE_WRITE, CREATE,
    DELETE, DELETE_SELF, MODIFY, MOVE, MOVED_FROM, MOVED_TO, MOVE_SELF, OPEN, UNMOUNT,
};
use crate::text::{
    str_equal, trimmed, uppercase,
};

verus! {

/// How many kinds have a counter and a name of their own: the twelve of
/// `ALL_EVENTS`, and `UNMOUNT`.
pub const KINDS: usize = 13;

/// The kinds that have a name of their own, as one set.
pub const NAMED_KINDS: u32 = 0x0000_2fff;

/// The `k`-th kind in canonical order.
pub open spec fn kind_bit(k: int) -> u32 {
    if k == 0 {
        ACCESS
    } else if k == 1 {
        MODIFY
    } else if k == 2 {
        ATTRIB
    } else if k == 3 {
        CLOSE_WRITE
    } else if k == 4 {
        CLOSE_NOWRITE
    } else if k == 5 {
        OPEN
    } else if k == 6 {
        MOVED_FROM
    } else if k == 7 {
        MOVED_TO
    } else if k == 8 {
        CREATE
    } else if k == 9 {
        DELETE
    } else if k == 10 {
        DELETE_SELF
    } else if k == 11 {
        MOVE_SELF
    } else {
        UNMOUNT
    }
}

/// The name of the `k`-th kind.
pub open spec fn kind_name(k: int) -> Seq<char> {
    if k == 0 {
        "ACCESS"@
    } else if k == 1 {
        "MODIFY"@
    } else if k == 2 {
        "ATTRIB"@
    } else if k == 3 {
        "CLOSE_WRITE"@
    } else if k == 4 {
        "CLOSE_NOWRITE"@
    } else if k == 5 {
        "OPEN"@
    } else if k == 6 {
        "MOVED_FROM"@
    } else if k == 7 {
        "MOVED_TO"@
    } else if k == 8 {
        "CREATE"@
    } else if k == 9 {
        "DELETE"@
    } else if k == 10 {
        "DELETE_SELF"@
    } else if k == 11 {
        "MOVE_SELF"@
    } else {
        "UNMOUNT"@
    }
}

/// The `k`-th kind in canonical order.
pub fn kind_bit_of(k: usize) -> (r: u32)
    requires
        k < KINDS,
    ensures
        r == kind_bit(k as int),
{
    if k == 0 {
        ACCESS
    } else if k == 1 {
        MODIFY
    } else if k == 2 {
        ATTRIB
    } else if k == 3 {
        CLOSE_WRITE
    } else if k == 4 {
        CLOSE_NOWRITE
    } else if k == 5 {
        OPEN
    } else if k == 6 {
        MOVED_FROM
    } else if k == 7 {
        MOVED_TO
    } else if k == 8 {
        CREATE
    } else if k == 9 {
        DELETE
    } else if k == 10 {
        DELETE_SELF
    } else if k == 11 {
        MOVE_SELF
    } else {
        UNMOUNT
    }
}

/// The name of the `k`-th kind.
pub fn kind_name_of(k: usize) -> (r: &'static str)
    requires
        k < KINDS,
    ensures
        r@ == kind_name(k as int),
{
    if k == 0 {
        "ACCESS"
    } else if k == 1 {
        "MODIFY"
    } else if k == 2 {
        "ATTRIB"
    } else if k == 3 {
        "CLOSE_WRITE"
    } else if k == 4 {
        "CLOSE_NOWRITE"
    } else if k == 5 {
        "OPEN"
    } else if k == 6 {
        "MOVED_FROM"
    } else if k == 7 {
        "MOVED_TO"
    } else if k == 8 {
        "CREATE"
    } else if k == 9 {
        "DELETE"
    } else if k == 10 {
        "DELETE_SELF"
    } else if k == 11 {
        "MOVE_SELF"
    } else {
        "UNMOUNT"
    }
}

/// Counters by kind, in canonical order, after one more event with the kinds
/// `mask`: one more for each kind that the event has.
pub open spec fn tally_after(tally: Seq<nat>, mask: u32) -> Seq<nat> {
    Seq::new(
        KINDS as nat,
        |k: int|
            if overlaps(mask, kind_bit(k)) {
                tally[k] + 1
            } else {
                tally[k]
            },
    )
}

/// The sum of the counters of those of the first `k` kinds that `mask` holds.
pub open spec fn selected_upto(tally: Seq<nat>, mask: u32, k: int) -> nat
    decreases k,
{
    if k <= 0 {
        0
    } else if overlaps(mask, kind_bit(k - 1)) {
        selected_upto(tally, mask, k - 1) + tally[k - 1]
    } else {
        selected_upto(tally, mask, k - 1)
    }
}

/// The sum of the counters of the kinds that `mask` holds.
pub open spec fn selected_total(tally: Seq<nat>, mask: u32) -> nat {
    selected_upto(tally, mask, KINDS as int)
}

/// The sum over the first kinds is no more than the sum over all.
pub proof fn lemma_selected_bounded(tally: Seq<nat>, mask: u32, k: int)
    requires
        0 <= k <= KINDS,
    ensures
        selected_upto(tally, mask, k) <= selected_total(tally, mask),
    decreases KINDS - k,
{
    if k < KINDS {
        lemma_selected_bounded(tally, mask, k + 1);
    }
}

/// The sum of those of the counters `counts` whose kind `mask` holds, in a
/// type that is wide enough for it.
pub(crate) fn selected_sum(counts: &Vec<u64>, mask: EventMask, Ghost(tally): Ghost<Seq<nat>>) -> (r:
    u128)
    requires
        counts.len() == KINDS,
        forall|k: int| 0 <= k < KINDS ==> (#[trigger] counts[k]) as nat == tally[k],
    ensures
        r == selected_total(tally, mask@),
{
    let mut sum: u128 = 0;
    let mut k: usize = 0;
    while k < KINDS
        invariant
            k <= KINDS == counts.len(),
            forall|k: int| 0 <= k < KINDS ==> (#[trigger] counts[k]) as nat == tally[k],
            sum == selected_upto(tally, mask@, k as int),
            sum <= k * u64::MAX,
        decreases KINDS - k,
    {
        if mask.0 & kind_bit_of(k) != 0 {
            sum = sum + counts[k] as u128;
        }
        k += 1;
    }
    sum
}

/// Whether each counter can take one more event with the kinds `mask`.
pub open spec fn tally_has_room(tally: Seq<nat>, mask: u32) -> bool {
    forall|k: int| 0 <= k < KINDS && overlaps(mask, kind_bit(k)) ==> #[trigger] tally[k] < u64::MAX
}

/// Whether no counter is above `total`.
pub open spec fn tally_within(tally: Seq<nat>, total: nat) -> bool {
    tally.len() == KINDS && forall|k: int| 0 <= k < KINDS ==> #[trigger] tally[k] <= total
}

/// The kinds in canonical order, one by one.
pub proof fn lemma_kinds_listed()
    ensures
        kind_bit(0) == ACCESS,
        kind_bit(1) == MODIFY,
        kind_bit(2) == ATTRIB,
        kind_bit(3) == CLOSE_WRITE,
        kind_bit(4) == CLOSE_NOWRITE,
        kind_bit(5) == OPEN,
        kind_bit(6) == MOVED_FROM,
        kind_bit(7) == MOVED_TO,
        kind_bit(8) == CREATE,
        kind_bit(9) == DELETE,
        kind_bit(10) == DELETE_SELF,
        kind_bit(11) == MOVE_SELF,
        kind_bit(12) == UNMOUNT,
{
}

/// `counter`, and one more where `on` holds.
pub fn bumped(counter: u64, on: bool) -> (r: u64)
    requires
        on ==> counter < u64::MAX,
    ensures
        r == if on {
            counter + 1
        } else {
            counter as int
        },
{
    if on {
        counter + 1
    } else {
        counter
    }
}

/// `sum`, and `counter` more where `on` holds.
pub fn added(sum: u64, counter: u64, on: bool) -> (r: u64)
    requires
        on ==> sum + counter <= u64::MAX,
    ensures
        r == if on {
            sum + counter
        } else {
            sum as int
        },
{
    if on {
        sum + counter
    } else {
        sum
    }
}

/// The names of those of the first `k` kinds that `mask` holds, in canonical
/// order.
pub open spec fn names_upto(mask: u32, k: int) -> Seq<Seq<char>>
    decreases k,
{
    if k <= 0 {
        Seq::empty()
    } else if overlaps(mask, kind_bit(k - 1)) {
        names_upto(mask, k - 1).push(kind_name(k - 1))
    } else {
        names_upto(mask, k - 1)
    }
}

/// The names of the kinds that `mask` holds, in canonical order.
pub open spec fn kind_names(mask: u32) -> Seq<Seq<char>> {
    names_upto(mask, KINDS as int)
}

/// The parts, with `sep` between each two of them.
pub open spec fn join_names(parts: Seq<Seq<char>>, sep: char) -> Seq<char>
    decreases parts.len(),
{
    if parts.len() == 0 {
        Seq::empty()
    } else if parts.len() == 1 {
        parts[0]
    } else {
        join_names(parts.drop_last(), sep).push(sep) + parts.last()
    }
}

/// The parts of `s` between the occurrences of `sep`: one more than there are
/// occurrences, empty parts included.
pub open spec fn split(s: Seq<char>, sep: char) -> Seq<Seq<char>>
    decreases s.len(),
{
    if s.len() == 0 {
        seq![Seq::empty()]
    } else {
        let before = split(s.drop_last(), sep);
        if s.last() == sep {
            before.push(Seq::empty())
        } else {
            before.drop_last().push(before.last().push(s.last()))
        }
    }
}

/// The set that a name stands for: a kind, or one of the composites `CLOSE`,
/// `MOVE` and `ALL_EVENTS`.
pub open spec fn name_bits(name: Seq<char>) -> Option<u32> {
    if name == "ACCESS"@ {
        Some(ACCESS)
    } else if name == "MODIFY"@ {
        Some(MODIFY)
    } else if name == "ATTRIB"@ {
        Some(ATTRIB)
    } else if name == "CLOSE_WRITE"@ {
        Some(CLOSE_WRITE)
    } else if name == "CLOSE_NOWRITE"@ {
        Some(CLOSE_NOWRITE)
    } else if name == "CLOSE"@ {
        Some(CLOSE)
    } else if name == "OPEN"@ {
        Some(OPEN)
    } else if name == "MOVED_FROM"@ {
        Some(MOVED_FROM)
    } else if name == "MOVED_TO"@ {
        Some(MOVED_TO)
    } else if name == "MOVE"@ {
        Some(MOVE)
    } else if name == "CREATE"@ {
        Some(CREATE)
    } else if name == "DELETE"@ {
        Some(DELETE)
    } else if name == "DELETE_SELF"@ {
        Some(DELETE_SELF)
    } else if name == "MOVE_SELF"@ {
        Some(MOVE_SELF)
    } else if name == "UNMOUNT"@ {
        Some(UNMOUNT)
    } else if name == "ALL_EVENTS"@ {
        Some(ALL_EVENTS)
    } else {
        None
    }
}

/// The set that `name` stands for, if it is the name of one, letter for
/// letter.
pub fn kind_from_name(name: &str) -> (r: Option<EventMask>)
    ensures
        r is Some <==> name_bits(name@) is Some,
        r matches Some(m) ==> name_bits(name@) == Some(m@),
{
    if str_equal(name, "ACCESS") {
        Some(EventMask(ACCESS))
    } else if str_equal(name, "MODIFY") {
        Some(EventMask(MODIFY))
    } else if str_equal(name, "ATTRIB") {
        Some(EventMask(ATTRIB))
    } else if str_equal(name, "CLOSE_WRITE") {
        Some(EventMask(CLOSE_WRITE))
    } else if str_equal(name, "CLOSE_NOWRITE") {
        Some(EventMask(CLOSE_NOWRITE))
    } else if str_equal(name, "CLOSE") {
        Some(EventMask(CLOSE))
    } else if str_equal(name, "OPEN") {
        Some(EventMask(OPEN))
    } else if str_equal(name, "MOVED_FROM") {
        Some(EventMask(MOVED_FROM))
    } else if str_equal(name, "MOVED_TO") {
        Some(EventMask(MOVED_TO))
    } else if str_equal(name, "MOVE") {
        Some(EventMask(MOVE))
    } else if str_equal(name, "CREATE") {
        Some(EventMask(CREATE))
    } else if str_equal(name, "DELETE") {
        Some(EventMask(DELETE))
    } else if str_equal(name, "DELETE_SELF") {
        Some(EventMask(DELETE_SELF))
    } else if str_equal(name, "MOVE_SELF") {
        Some(EventMask(MOVE_SELF))
    } else if str_equal(name, "UNMOUNT") {
        Some(EventMask(UNMOUNT))
    } else if str_equal(name, "ALL_EVENTS") {
        Some(EventMask(ALL_EVENTS))
    } else {
        None
    }
}

/// A part of a list as it is looked up: without the white space round it, in
/// upper case.
pub open spec fn normalized(part: Seq<char>) -> Seq<char> {
    uppercase(trimmed(part))
}

/// The union of the sets that the parts stand for, or the first part, as it
/// was looked up, that stands for none.
pub open spec fn parse_parts(parts: Seq<Seq<char>>) -> Result<u32, Seq<char>>
    decreases parts.len(),
{
    if parts.len() == 0 {
        Ok(0u32)
    } else {
        match parse_parts(parts.drop_last()) {
            Err(bad) => Err(bad),
            Ok(bits) => match name_bits(normalized(parts.last())) {
                Some(b) => Ok(bits | b),
                None => Err(normalized(parts.last())),
            },
        }
    }
}

/// The set that a list of names stands for: the empty set for the empty
/// text, else what its parts between the separators stand for.
pub open spec fn parse_kind_list(s: Seq<char>, sep: char) -> Result<u32, Seq<char>> {
    if s.len() == 0 {
        Ok(0u32)
    } else {
        parse_parts(split(s, sep))
    }
}

/// The text for the set `mask`: the names of its kinds with `sep` between
/// them, or `NONE` where it holds no kind with a name.
pub open spec fn kind_list_text(mask: u32, sep: char) -> Seq<char> {
    if kind_names(mask).len() == 0 {
        "NONE"@
    } else {
        join_names(kind_names(mask), sep)
    }
}

/// The bounds, in `chars`, of the parts between the occurrences of `sep`.
pub fn split_ranges(chars: &Vec<char>, sep: char) -> (r: Vec<(usize, usize)>)
    ensures
        r.len() == split(chars@, sep).len(),
        forall|j: int|
            0 <= j < r.len() ==> (#[trigger] r[j]).0 <= r[j].1 <= chars.len() && chars@.subrange(
                r[j].0 as int,
                r[j].1 as int,
            ) == split(chars@, sep)[j],
{
    let mut ranges: Vec<(usize, usize)> = Vec::new();
    let mut start: usize = 0;
    let mut i: usize = 0;
    let ghost mut done: Seq<Seq<char>> = Seq::empty();
    assert(chars@.take(0) == Seq::<char>::empty());
    assert(chars@.subrange(0, 0) == Seq::<char>::empty());
    assert(seq![Seq::<char>::empty()] == done.push(Seq::<char>::empty()));
    while i < chars.len()
        invariant
            start <= i <= chars.len(),
            done.len() == ranges.len(),
            forall|j: int|
                0 <= j < ranges.len() ==> (#[trigger] ranges[j]).0 <= ranges[j].1 <= chars.len()
                    && chars@.subrange(ranges[j].0 as int, ranges[j].1 as int) == done[j],
            split(chars@.take(i as int), sep) == done.push(
                chars@.subrange(start as int, i as int),
            ),
        decreases chars.len() - i,
    {
        let ghost before = split(chars@.take(i as int), sep);
        assert(chars@.take(i + 1).drop_last() == chars@.take(i as int));
        assert(chars@.take(i + 1).last() == chars@[i as int]);
        if chars[i] == sep {
            ranges.push((start, i));
            proof {
                done = done.push(chars@.subrange(start as int, i as int));
                assert(chars@.subrange(i + 1, i + 1) == Seq::<char>::empty());
            }
            start = i + 1;
        } else {
            assert(before.drop_last() == done);
            assert(before.last().push(chars@[i as int]) == chars@.subrange(start as int, i + 1));
        }
        i += 1;
    }
    assert(chars@.take(i as int) == chars@);
    ranges.push((start, i));
    ranges
}

/// Once a part stands for no set, the parts that follow change nothing.
pub proof fn lemma_parse_error_stays(parts: Seq<Seq<char>>, n: int)
    requires
        0 <= n <= parts.len(),
        parse_parts(parts.take(n)) is Err,
    ensures
        parse_parts(parts) == parse_parts(parts.take(n)),
    decreases parts.len() - n,
{
    if n == parts.len() {
        assert(parts.take(n) == parts);
    } else {
        assert(parts.take(n + 1).drop_last() == parts.take(n));
        lemma_parse_error_stays(parts, n + 1);
    }
}

/// The characters that the names of the kinds are written with.
pub open spec fn is_name_char(c: char) -> bool {
    ('A' <= c && c <= 'Z') || c == '_'
}

/// A nonempty text of capital letters and underscores.
pub open spec fn is_plain_name(name: Seq<char>) -> bool {
    name.len() > 0 && forall|i: int| 0 <= i < name.len() ==> is_name_char(#[trigger] name[i])
}

/// The first `k` kinds, as one set.
pub open spec fn low_kinds(k: int) -> u32 {
    if k <= 0 {
        0x0000
    } else if k == 1 {
        0x0001
    } else if k == 2 {
        0x0003
    } else if k == 3 {
        0x0007
    } else if k == 4 {
        0x000f
    } else if k == 5 {
        0x001f
    } else if k == 6 {
        0x003f
    } else if k == 7 {
        0x007f
    } else if k == 8 {
        0x00ff
    } else if k == 9 {
        0x01ff
    } else if k == 10 {
        0x03ff
    } else if k == 11 {
        0x07ff
    } else if k == 12 {
        0x0fff
    } else {
        0x2fff
    }
}

/// What tells the names apart: the length and the first two characters.
spec fn name_key(name: Seq<char>) -> (nat, char, char) {
    (name.len(), name[0], name[1])
}

proof fn lemma_name_keys()
    ensures
        name_key("ACCESS"@) == (6nat, 'A', 'C'),
        name_key("MODIFY"@) == (6nat, 'M', 'O'),
        name_key("ATTRIB"@) == (6nat, 'A', 'T'),
        name_key("CLOSE_WRITE"@) == (11nat, 'C', 'L'),
        name_key("CLOSE_NOWRITE"@) == (13nat, 'C', 'L'),
        name_key("CLOSE"@) == (5nat, 'C', 'L'),
        name_key("OPEN"@) == (4nat, 'O', 'P'),
        name_key("MOVED_FROM"@) == (10nat, 'M', 'O'),
        name_key("MOVED_TO"@) == (8nat, 'M', 'O'),
        name_key("MOVE"@) == (4nat, 'M', 'O'),
        name_key("CREATE"@) == (6nat, 'C', 'R'),
        name_key("DELETE"@) == (6nat, 'D', 'E'),
        name_key("DELETE_SELF"@) == (11nat, 'D', 'E'),
        name_key("MOVE_SELF"@) == (9nat, 'M', 'O'),
        name_key("UNMOUNT"@) == (7nat, 'U', 'N'),
        name_key("ALL_EVENTS"@) == (10nat, 'A', 'L'),
{
    reveal_strlit("ACCESS");
    reveal_strlit("MODIFY");
    reveal_strlit("ATTRIB");
    reveal_strlit("CLOSE_WRITE");
    reveal_strlit("CLOSE_NOWRITE");
    reveal_strlit("CLOSE");
    reveal_strlit("OPEN");
    reveal_strlit("MOVED_FROM");
    reveal_strlit("MOVED_TO");
    reveal_strlit("MOVE");
    reveal_strlit("CREATE");
    reveal_strlit("DELETE");
    reveal_strlit("DELETE_SELF");
    reveal_strlit("MOVE_SELF");
    reveal_strlit("UNMOUNT");
    reveal_strlit("ALL_EVENTS");
}

proof fn lemma_plain_names()
    ensures
        forall|k: int| 0 <= k < KINDS ==> is_plain_name(#[trigger] kind_name(k)),
{
    assert(is_plain_name("ACCESS"@)) by {
        reveal_strlit("ACCESS");
    }
    assert(is_plain_name("MODIFY"@)) by {
        reveal_strlit("MODIFY");
    }
    assert(is_plain_name("ATTRIB"@)) by {
        reveal_strlit("ATTRIB");
    }
    assert(is_plain_name("CLOSE_WRITE"@)) by {
        reveal_strlit("CLOSE_WRITE");
    }
    assert(is_plain_name("CLOSE_NOWRITE"@)) by {
        reveal_strlit("CLOSE_NOWRITE");
    }
    assert(is_plain_name("OPEN"@)) by {
        reveal_strlit("OPEN");
    }
    assert(is_plain_name("MOVED_FROM"@)) by {
        reveal_strlit("MOVED_FROM");
    }
    assert(is_plain_name("MOVED_TO"@)) by {
        reveal_strlit("MOVED_TO");
    }
    assert(is_plain_name("CREATE"@)) by {
        reveal_strlit("CREATE");
    }
    assert(is_plain_name("DELETE"@)) by {
        reveal_strlit("DELETE");
    }
    assert(is_plain_name("DELETE_SELF"@)) by {
        reveal_strlit("DELETE_SELF");
    }
    assert(is_plain_name("MOVE_SELF"@)) by {
        reveal_strlit("MOVE_SELF");
    }
    assert(is_plain_name("UNMOUNT"@)) by {
        reveal_strlit("UNMOUNT");
    }
}

/// Each kind is what its own name stands for.
proof fn lemma_name_of_kind(k: int)
    requires
        0 <= k < KINDS,
    ensures
        name_bits(kind_name(k)) == Some(kind_bit(k)),
{
    lemma_name_keys();
}

/// A plain name is looked up as it stands.
pub proof fn lemma_plain_name_is_normal(name: Seq<char>)
    requires
        is_plain_name(name),
    ensures
        normalized(name) == name,
{
    assert(is_name_char(name[0]));
    assert(is_name_char(name[name.len() - 1]));
    assert(trimmed(name) == name);
    assert forall|i: int| 0 <= i < name.len() implies (#[trigger] name[i]) as u32 <= 0x7f by {
        assert(is_name_char(name[i]));
    }
    assert forall|i: int| 0 <= i < name.len() implies crate::text::ascii_upper(#[trigger] name[i])
        == name[i] by {
        assert(is_name_char(name[i]));
    }
    assert(name.map_values(|c: char| crate::text::ascii_upper(c)) == name);
}

proof fn lemma_kind_bits(x: u32)
    by (bit_vector)
    ensures
        x & 0 == 0,
        x & 0x0001 != 0 ==> (x & 0x0000) | 0x0001 == x & 0x0001,
        x & 0x0001 == 0 ==> x & 0x0000 == x & 0x0001,
        x & 0x0002 != 0 ==> (x & 0x0001) | 0x0002 == x & 0x0003,
        x & 0x0002 == 0 ==> x & 0x0001 == x & 0x0003,
        x & 0x0004 != 0 ==> (x & 0x0003) | 0x0004 == x & 0x0007,
        x & 0x0004 == 0 ==> x & 0x0003 == x & 0x0007,
        x & 0x0008 != 0 ==> (x & 0x0007) | 0x0008 == x & 0x000f,
        x & 0x0008 == 0 ==> x & 0x0007 == x & 0x000f,
        x & 0x0010 != 0 ==> (x & 0x000f) | 0x0010 == x & 0x001f,
        x & 0x0010 == 0 ==> x & 0x000f == x & 0x001f,
        x & 0x0020 != 0 ==> (x & 0x001f) | 0x0020 == x & 0x003f,
        x & 0x0020 == 0 ==> x & 0x001f == x & 0x003f,
        x & 0x0040 != 0 ==> (x & 0x003f) | 0x0040 == x & 0x007f,
        x & 0x0040 == 0 ==> x & 0x003f == x & 0x007f,
        x & 0x0080 != 0 ==> (x & 0x007f) | 0x0080 == x & 0x00ff,
        x & 0x0080 == 0 ==> x & 0x007f == x & 0x00ff,
        x & 0x0100 != 0 ==> (x & 0x00ff) | 0x0100 == x & 0x01ff,
        x & 0x0100 == 0 ==> x & 0x00ff == x & 0x01ff,
        x & 0x0200 != 0 ==> (x & 0x01ff) | 0x0200 == x & 0x03ff,
        x & 0x0200 == 0 ==> x & 0x01ff == x & 0x03ff,
        x & 0x0400 != 0 ==> (x & 0x03ff) | 0x0400 == x & 0x07ff,
        x & 0x0400 == 0 ==> x & 0x03ff == x & 0x07ff,
        x & 0x0800 != 0 ==> (x & 0x07ff) | 0x0800 == x & 0x0fff,
        x & 0x0800 == 0 ==> x & 0x07ff == x & 0x0fff,
        x & 0x2000 != 0 ==> (x & 0x0fff) | 0x2000 == x & 0x2fff,
        x & 0x2000 == 0 ==> x & 0x0fff == x & 0x2fff,
        x & 0x0001 == 0 ==> x & 0x0001 == 0,
{
}

proof fn lemma_union_not_empty(a: u32, b: u32)
    by (bit_vector)
    requires
        b != 0,
    ensures
        a | b != 0,
{
}

/// What the `k`-th kind adds to the first `k` kinds of a set.
proof fn lemma_kind_step(mask: u32, k: int)
    requires
        0 <= k < KINDS,
    ensures
        mask & low_kinds(0) == 0,
        overlaps(mask, kind_bit(k)) ==> (mask & low_kinds(k)) | kind_bit(k) == mask & low_kinds(k + 1),
        !overlaps(mask, kind_bit(k)) ==> mask & low_kinds(k) == mask & low_kinds(k + 1),
        overlaps(mask, low_kinds(k + 1)) <==> overlaps(mask, low_kinds(k)) || overlaps(mask, kind_bit(k)),
{
    lemma_kind_bits(mask);
    lemma_union_not_empty(mask & low_kinds(k), kind_bit(k));
}

/// The names of the first `k` kinds of a set stand for those kinds.
pub proof fn lemma_parse_names(mask: u32, k: int)
    requires
        0 <= k <= KINDS,
    ensures
        parse_parts(names_upto(mask, k)) == Ok::<u32, Seq<char>>(mask & low_kinds(k)),
        names_upto(mask, k).len() > 0 <==> overlaps(mask, low_kinds(k)),
        forall|i: int|
            0 <= i < names_upto(mask, k).len() ==> is_plain_name(#[trigger] names_upto(mask, k)[i]),
    decreases k,
{
    if k > 0 {
        lemma_parse_names(mask, k - 1);
        lemma_kind_step(mask, k - 1);
        let name = kind_name(k - 1);
        let before = names_upto(mask, k - 1);
        if overlaps(mask, kind_bit(k - 1)) {
            lemma_plain_names();
            assert(is_plain_name(name));
            lemma_plain_name_is_normal(name);
            lemma_name_of_kind(k - 1);
            assert(names_upto(mask, k) == before.push(name));
            assert(before.push(name).drop_last() == before);
            assert(before.push(name).last() == name);
        }
    } else {
        lemma_kind_step(mask, 0);
    }
}

/// Appending text without a separator lengthens the last part.
pub proof fn lemma_split_append(t: Seq<char>, u: Seq<char>, sep: char)
    requires
        forall|i: int| 0 <= i < u.len() ==> u[i] != sep,
    ensures
        split(t + u, sep).len() == split(t, sep).len() >= 1,
        split(t + u, sep) == split(t, sep).drop_last().push(split(t, sep).last() + u),
    decreases u.len(),
{
    if u.len() == 0 {
        assert(t + u == t);
        lemma_split_nonempty(t, sep);
        assert(split(t, sep).last() + u == split(t, sep).last());
        assert(split(t, sep).drop_last().push(split(t, sep).last()) == split(t, sep));
    } else {
        lemma_split_append(t, u.drop_last(), sep);
        assert((t + u).drop_last() == t + u.drop_last());
        assert((t + u).last() == u.last());
        let before = split(t + u.drop_last(), sep);
        assert(before.last().push(u.last()) == split(t, sep).last() + u) by {
            assert(u.drop_last().push(u.last()) == u);
            assert((split(t, sep).last() + u.drop_last()).push(u.last()) == split(t, sep).last()
                + u);
        }
        assert(before.drop_last() == split(t, sep).drop_last());
    }
}

/// A text has at least one part.
pub proof fn lemma_split_nonempty(s: Seq<char>, sep: char)
    ensures
        split(s, sep).len() >= 1,
    decreases s.len(),
{
    if s.len() > 0 {
        lemma_split_nonempty(s.drop_last(), sep);
    }
}

/// Splitting undoes joining, where no part holds the separator.
pub proof fn lemma_split_join(parts: Seq<Seq<char>>, sep: char)
    requires
        parts.len() > 0,
        forall|j: int, i: int|
            0 <= j < parts.len() && 0 <= i < parts[j].len() ==> (#[trigger] parts[j][i]) != sep,
    ensures
        split(join_names(parts, sep), sep) == parts,
    decreases parts.len(),
{
    let last = parts.last();
    assert(forall|i: int| 0 <= i < last.len() ==> last[i] != sep);
    if parts.len() == 1 {
        lemma_split_append(Seq::empty(), last, sep);
        assert(Seq::<char>::empty() + last == last);
        assert(split(Seq::empty(), sep) == seq![Seq::<char>::empty()]);
        assert(seq![Seq::<char>::empty()].drop_last().push(Seq::<char>::empty() + last) == parts);
    } else {
        let init = parts.drop_last();
        assert forall|j: int, i: int| 0 <= j < init.len() && 0 <= i < init[j].len() implies (
        #[trigger] init[j][i]) != sep by {
            assert(init[j] == parts[j]);
        }
        lemma_split_join(init, sep);
        let t = join_names(init, sep).push(sep);
        assert(t.drop_last() == join_names(init, sep));
        assert(split(t, sep) == init.push(Seq::empty()));
        lemma_split_append(t, last, sep);
        assert(init.push(Seq::<char>::empty()).drop_last() == init);
        assert(Seq::<char>::empty() + last == last);
        assert(init.push(last) == parts);
    }
}

/// Round trip: the text for a set that holds a kind with a name stands for
/// the named kinds of that set, whatever the separator, so long as it is no
/// capital letter and no underscore.
pub proof fn lemma_names_round_trip(mask: u32, sep: char)
    requires
        overlaps(mask, NAMED_KINDS),
        !is_name_char(sep),
    ensures
        parse_kind_list(kind_list_text(mask, sep), sep) == Ok::<u32, Seq<char>>(mask & NAMED_KINDS),
{
    let names = kind_names(mask);
    lemma_parse_names(mask, KINDS as int);
    assert forall|j: int, i: int| 0 <= j < names.len() && 0 <= i < names[j].len() implies (
    #[trigger] names[j][i]) != sep by {
        assert(is_plain_name(names[j]));
        assert(is_name_char(names[j][i]));
    }
    lemma_split_join(names, sep);
    lemma_join_nonempty(names, sep);
}

/// Joined plain names make a text that is not empty.
proof fn lemma_join_nonempty(parts: Seq<Seq<char>>, sep: char)
    requires
        parts.len() > 0,
        parts.last().len() > 0,
    ensures
        join_names(parts, sep).len() > 0,
{
}

} // verus!
