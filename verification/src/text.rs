//! Text as sequences of characters: the string operations that the rest of the
//! library reads client output with, each stated over `Seq<char>`.
use vstd::prelude::*;

verus! {

/// `String::push` appends one character at the end and changes nothing else.
pub assume_specification[ String::push ](text: &mut String, c: char)
    ensures
        final(text)@ == old(text)@.push(c),
;

// ---------------------------------------------------------------- conversions

/// The characters of `text`, in order.
pub fn chars_of(text: &str) -> (chars: Vec<char>)
    ensures
        chars@ == text@,
{
    let mut chars: Vec<char> = Vec::new();
    for c in it: text.chars()
        invariant
            chars@ == it.seq().take(it.index()),
            it.seq() == text@,
    {
        chars.push(c);
    }
    chars
}

/// The string made of the characters of `chars` from `from` up to `to`.
pub fn slice_string(chars: &Vec<char>, from: usize, to: usize) -> (text: String)
    requires
        from <= to <= chars@.len(),
    ensures
        text@ == chars@.subrange(from as int, to as int),
{
    let mut text: String = String::new();
    for i in from..to
        invariant
            from <= to <= chars@.len(),
            text@ == chars@.subrange(from as int, i as int),
    {
        text.push(chars[i]);
    }
    text
}

/// Whether the two texts are the same.
pub fn same(a: &str, b: &str) -> (equal: bool)
    ensures
        equal == (a@ == b@),
{
    a.to_owned() == b.to_owned()
}

/// Whether the two strings hold the same text.
pub fn equal(a: &String, b: &String) -> (r: bool)
    ensures
        r == (a@ == b@),
{
    *a == *b
}

/// A text that may be there, mathematically.
pub open spec fn maybe_text(text: Option<String>) -> Option<Seq<char>> {
    match text {
        Some(text) => Some(text@),
        None => None,
    }
}

/// Whether `maybe` is there and is the text `b`.
pub fn is_same(maybe: &Option<String>, b: &str) -> (equal: bool)
    ensures
        equal == (maybe matches Some(a) && a@ == b@),
{
    match maybe {
        Some(a) => same(a, b),
        None => false,
    }
}

// ---------------------------------------------------------------- letter case

/// An ASCII capital in lower case; every other character as it is.
pub open spec fn lower_char(c: char) -> char {
    if 'A' <= c <= 'Z' {
        ((c as u32) + 32) as char
    } else {
        c
    }
}

/// An ASCII small letter as a capital; every other character as it is.
pub open spec fn upper_char(c: char) -> char {
    if 'a' <= c <= 'z' {
        ((c as u32) - 32) as char
    } else {
        c
    }
}

/// `s` with its ASCII capitals in lower case.
pub open spec fn lower(s: Seq<char>) -> Seq<char> {
    s.map_values(|c: char| lower_char(c))
}

/// `s` with its ASCII small letters as capitals.
pub open spec fn upper(s: Seq<char>) -> Seq<char> {
    s.map_values(|c: char| upper_char(c))
}

fn to_lower_char(c: char) -> (r: char)
    ensures
        r == lower_char(c),
{
    if 'A' <= c && c <= 'Z' {
        ((c as u8) + 32) as char
    } else {
        c
    }
}

fn to_upper_char(c: char) -> (r: char)
    ensures
        r == upper_char(c),
{
    if 'a' <= c && c <= 'z' {
        ((c as u8) - 32) as char
    } else {
        c
    }
}

/// `text` with its ASCII capitals in lower case.
pub fn to_lower(text: &str) -> (r: String)
    ensures
        r@ == lower(text@),
{
    let chars = chars_of(text);
    let mut r: String = String::new();
    for i in 0..chars.len()
        invariant
            chars@ == text@,
            r@ == lower(text@).take(i as int),
    {
        r.push(to_lower_char(chars[i]));
    }
    assert(lower(text@).take(chars@.len() as int) == lower(text@));
    r
}

/// `text` with its ASCII small letters as capitals.
pub fn to_upper(text: &str) -> (r: String)
    ensures
        r@ == upper(text@),
{
    let chars = chars_of(text);
    let mut r: String = String::new();
    for i in 0..chars.len()
        invariant
            chars@ == text@,
            r@ == upper(text@).take(i as int),
    {
        r.push(to_upper_char(chars[i]));
    }
    assert(upper(text@).take(chars@.len() as int) == upper(text@));
    r
}

/// Whether the two texts are the same but for the case of ASCII letters.
pub fn same_ignoring_case(a: &str, b: &str) -> (equal: bool)
    ensures
        equal == (lower(a@) == lower(b@)),
{
    to_lower(a) == to_lower(b)
}

/// A letter or a digit of ASCII.
pub open spec fn is_alphanumeric(c: char) -> bool {
    ('a' <= c <= 'z') || ('A' <= c <= 'Z') || ('0' <= c <= '9')
}

/// The ASCII letters and digits of `s`, in order, in lower case.
pub open spec fn squashed(s: Seq<char>) -> Seq<char> {
    lower(s.filter(|c: char| is_alphanumeric(c)))
}

/// The ASCII letters and digits of `text`, in order, in lower case.
pub fn squash(text: &str) -> (r: String)
    ensures
        r@ == squashed(text@),
{
    let chars = chars_of(text);
    let ghost keep = |c: char| is_alphanumeric(c);
    let mut kept: String = String::new();
    for i in 0..chars.len()
        invariant
            chars@ == text@,
            keep == (|c: char| is_alphanumeric(c)),
            kept@ == chars@.take(i as int).filter(keep),
    {
        let c = chars[i];
        proof {
            assert(chars@.take(i + 1).drop_last() == chars@.take(i as int));
            reveal(Seq::filter);
        }
        if ('a' <= c && c <= 'z') || ('A' <= c && c <= 'Z') || ('0' <= c && c <= '9') {
            kept.push(c);
        }
    }
    assert(chars@.take(chars@.len() as int) == chars@);
    to_lower(&kept)
}

// ------------------------------------------------------------------- trimming

/// The Unicode characters with the property White_Space.
pub open spec fn is_space(c: char) -> bool {
    let n = c as u32;
    ||| 9 <= n <= 13
    ||| n == 32
    ||| n == 0x85
    ||| n == 0xa0
    ||| n == 0x1680
    ||| 0x2000 <= n <= 0x200a
    ||| n == 0x2028
    ||| n == 0x2029
    ||| n == 0x202f
    ||| n == 0x205f
    ||| n == 0x3000
}

/// `s` from its first character that fails `drop`.
pub open spec fn without_prefix(s: Seq<char>, drop: spec_fn(char) -> bool) -> Seq<char>
    decreases s.len(),
{
    if s.len() > 0 && drop(s[0]) {
        without_prefix(s.drop_first(), drop)
    } else {
        s
    }
}

/// `s` up to its last character that fails `drop`, that one included.
pub open spec fn without_suffix(s: Seq<char>, drop: spec_fn(char) -> bool) -> Seq<char>
    decreases s.len(),
{
    if s.len() > 0 && drop(s.last()) {
        without_suffix(s.drop_last(), drop)
    } else {
        s
    }
}

/// `s` without white space at either end.
pub open spec fn trimmed(s: Seq<char>) -> Seq<char> {
    let space = |c: char| is_space(c);
    without_suffix(without_prefix(s, space), space)
}

/// Being the character `c`.
pub open spec fn exactly(c: char) -> spec_fn(char) -> bool {
    |x: char| x == c
}

/// `s` without the character `c` at its start.
pub open spec fn unprefixed(s: Seq<char>, c: char) -> Seq<char> {
    without_prefix(s, exactly(c))
}

/// `s` without the character `c` at either end.
pub open spec fn unwrapped(s: Seq<char>, c: char) -> Seq<char> {
    without_suffix(without_prefix(s, exactly(c)), exactly(c))
}

fn is_white_space(c: char) -> (r: bool)
    ensures
        r == is_space(c),
{
    let n = c as u32;
    (9 <= n && n <= 13) || n == 32 || n == 0x85 || n == 0xa0 || n == 0x1680 || (0x2000 <= n && n
        <= 0x200a) || n == 0x2028 || n == 0x2029 || n == 0x202f || n == 0x205f || n == 0x3000
}

/// `text` without white space at either end.
pub fn trim(text: &str) -> (r: String)
    ensures
        r@ == trimmed(text@),
{
    let chars = chars_of(text);
    let ghost space = |c: char| is_space(c);
    let mut from: usize = 0;
    assert(chars@.subrange(0, chars@.len() as int) == chars@);
    while from < chars.len() && is_white_space(chars[from])
        invariant
            space == (|c: char| is_space(c)),
            from <= chars@.len(),
            without_prefix(chars@.subrange(from as int, chars@.len() as int), space)
                == without_prefix(chars@, space),
        decreases chars@.len() - from,
    {
        assert(chars@.subrange(from as int, chars@.len() as int).drop_first() == chars@.subrange(
            from + 1,
            chars@.len() as int,
        ));
        from += 1;
    }
    let mut to: usize = chars.len();
    while to > from && is_white_space(chars[to - 1])
        invariant
            space == (|c: char| is_space(c)),
            from <= to <= chars@.len(),
            without_suffix(chars@.subrange(from as int, to as int), space) == without_suffix(
                chars@.subrange(from as int, chars@.len() as int),
                space,
            ),
        decreases to,
    {
        assert(chars@.subrange(from as int, to as int).drop_last() == chars@.subrange(
            from as int,
            to - 1,
        ));
        to -= 1;
    }
    slice_string(&chars, from, to)
}

/// `text` without the character `c` at its start.
pub fn trim_start_char(text: &str, c: char) -> (r: String)
    ensures
        r@ == unprefixed(text@, c),
{
    let chars = chars_of(text);
    let ghost drop = exactly(c);
    let mut from: usize = 0;
    assert(chars@.subrange(0, chars@.len() as int) == chars@);
    while from < chars.len() && chars[from] == c
        invariant
            drop == exactly(c),
            from <= chars@.len(),
            without_prefix(chars@.subrange(from as int, chars@.len() as int), drop)
                == without_prefix(chars@, drop),
        decreases chars@.len() - from,
    {
        assert(chars@.subrange(from as int, chars@.len() as int).drop_first() == chars@.subrange(
            from + 1,
            chars@.len() as int,
        ));
        from += 1;
    }
    slice_string(&chars, from, chars.len())
}

/// `text` without the character `c` at either end.
pub fn trim_char(text: &str, c: char) -> (r: String)
    ensures
        r@ == unwrapped(text@, c),
{
    let rest = trim_start_char(text, c);
    let chars = chars_of(&rest);
    let ghost drop = exactly(c);
    let mut to: usize = chars.len();
    assert(chars@.subrange(0, chars@.len() as int) == chars@);
    while to > 0 && chars[to - 1] == c
        invariant
            drop == exactly(c),
            to <= chars@.len(),
            without_suffix(chars@.subrange(0, to as int), drop) == without_suffix(chars@, drop),
        decreases to,
    {
        assert(chars@.subrange(0, to as int).drop_last() == chars@.subrange(0, to - 1));
        to -= 1;
    }
    slice_string(&chars, 0, to)
}

// ------------------------------------------------------------------ searching

/// `pattern` stands in `s` at `at`.
pub open spec fn occurs_at(s: Seq<char>, pattern: Seq<char>, at: int) -> bool {
    &&& 0 <= at
    &&& at + pattern.len() <= s.len()
    &&& s.subrange(at, at + pattern.len()) == pattern
}

/// `pattern` stands somewhere in `s`.
pub open spec fn occurs(s: Seq<char>, pattern: Seq<char>) -> bool {
    exists|at: int| occurs_at(s, pattern, at)
}

/// Where `pattern` first stands in `s` at or after `from`.
pub open spec fn first_from(s: Seq<char>, pattern: Seq<char>, from: int) -> Option<int>
    decreases s.len() - from,
{
    if from < 0 || from > s.len() {
        None
    } else if occurs_at(s, pattern, from) {
        Some(from)
    } else if from == s.len() {
        None
    } else {
        first_from(s, pattern, from + 1)
    }
}

/// `s` ends in `pattern`.
pub open spec fn ends_in(s: Seq<char>, pattern: Seq<char>) -> bool {
    occurs_at(s, pattern, s.len() - pattern.len())
}

fn stands_at(chars: &Vec<char>, pattern: &Vec<char>, at: usize) -> (r: bool)
    requires
        at <= chars@.len(),
    ensures
        r == occurs_at(chars@, pattern@, at as int),
{
    if chars.len() - at < pattern.len() {
        return false;
    }
    for i in 0..pattern.len()
        invariant
            at + pattern@.len() <= chars.len(),
            forall|j: int| 0 <= j < i ==> chars@[at + j] == pattern@[j],
    {
        if chars[at + i] != pattern[i] {
            assert(chars@.subrange(at as int, at + pattern@.len())[i as int] != pattern@[i as int]);
            return false;
        }
    }
    assert(chars@.subrange(at as int, at + pattern@.len()) == pattern@);
    true
}

/// Where `pattern` first stands in `chars` at or after `from`.
pub fn find_from(chars: &Vec<char>, pattern: &str, from: usize) -> (r: Option<usize>)
    requires
        from <= chars@.len(),
    ensures
        match r {
            Some(at) => first_from(chars@, pattern@, from as int) == Some(at as int) && from <= at
                && at + pattern@.len() <= chars@.len(),
            None => first_from(chars@, pattern@, from as int) is None,
        },
{
    let wanted = chars_of(pattern);
    let mut at: usize = from;
    while at < chars.len()
        invariant
            wanted@ == pattern@,
            from <= at <= chars@.len(),
            first_from(chars@, pattern@, from as int) == first_from(chars@, pattern@, at as int),
        decreases chars@.len() - at,
    {
        if stands_at(chars, &wanted, at) {
            return Some(at);
        }
        at += 1;
    }
    if stands_at(chars, &wanted, at) {
        Some(at)
    } else {
        None
    }
}

proof fn lemma_first_from(s: Seq<char>, pattern: Seq<char>, from: int)
    requires
        0 <= from <= s.len(),
    ensures
        match first_from(s, pattern, from) {
            Some(at) => occurs_at(s, pattern, at),
            None => forall|j: int| from <= j ==> !occurs_at(s, pattern, j),
        },
    decreases s.len() - from,
{
    if !occurs_at(s, pattern, from) && from < s.len() {
        lemma_first_from(s, pattern, from + 1);
    }
}

/// Whether `pattern` stands somewhere in `text`.
pub fn contains(text: &str, pattern: &str) -> (r: bool)
    ensures
        r == occurs(text@, pattern@),
{
    let chars = chars_of(text);
    proof {
        lemma_first_from(text@, pattern@, 0);
    }
    find_from(&chars, pattern, 0).is_some()
}

/// Whether `text` ends in `pattern`.
pub fn ends_with(text: &str, pattern: &str) -> (r: bool)
    ensures
        r == ends_in(text@, pattern@),
{
    let chars = chars_of(text);
    let wanted = chars_of(pattern);
    if chars.len() < wanted.len() {
        return false;
    }
    stands_at(&chars, &wanted, chars.len() - wanted.len())
}

// ------------------------------------------------------------------ splitting

/// The pieces of `s` between the separators, one more than there are separators.
pub open spec fn split_on(s: Seq<char>, separator: char) -> Seq<Seq<char>>
    decreases s.len(),
{
    if s.len() == 0 {
        seq![Seq::<char>::empty()]
    } else {
        let before = split_on(s.drop_last(), separator);
        if s.last() == separator {
            before.push(Seq::<char>::empty())
        } else {
            before.drop_last().push(before.last().push(s.last()))
        }
    }
}

/// The texts of `parts`.
pub open spec fn texts(parts: Seq<String>) -> Seq<Seq<char>> {
    parts.map_values(|p: String| p@)
}

/// There is at least one piece.
pub proof fn lemma_split_not_empty(s: Seq<char>, separator: char)
    ensures
        split_on(s, separator).len() > 0,
    decreases s.len(),
{
    if s.len() > 0 {
        lemma_split_not_empty(s.drop_last(), separator);
    }
}

/// The pieces of `text` between the separators.
pub fn split(text: &str, separator: char) -> (parts: Vec<String>)
    ensures
        texts(parts@) == split_on(text@, separator),
        parts@.len() > 0,
{
    let chars = chars_of(text);
    let mut parts: Vec<String> = Vec::new();
    let mut piece: String = String::new();
    assert(chars@.take(0) == Seq::<char>::empty());
    assert(texts(parts@).push(piece@) =~= seq![Seq::<char>::empty()]);
    for i in 0..chars.len()
        invariant
            chars@ == text@,
            texts(parts@).push(piece@) == split_on(chars@.take(i as int), separator),
    {
        let ghost before = split_on(chars@.take(i as int), separator);
        let ghost done = parts@;
        let ghost open = piece@;
        proof {
            assert(chars@.take(i + 1).drop_last() == chars@.take(i as int));
            assert(before.last() == piece@);
            assert(before.drop_last() =~= texts(parts@));
        }
        if chars[i] == separator {
            parts.push(piece);
            piece = String::new();
            assert(texts(parts@) =~= texts(done).push(open));
            assert(piece@ =~= Seq::<char>::empty());
        } else {
            piece.push(chars[i]);
        }
    }
    assert(chars@.take(chars@.len() as int) == chars@);
    let ghost done = parts@;
    let ghost open = piece@;
    parts.push(piece);
    assert(texts(parts@) =~= texts(done).push(open));
    parts
}

/// `s` up to its first line feed.
pub open spec fn first_line(s: Seq<char>) -> Seq<char> {
    split_on(s, '\n')[0]
}

// --------------------------------------------------------------------- joining

/// Adds one more text to a list.
pub fn push_text(parts: &mut Vec<String>, text: String)
    ensures
        texts(final(parts)@) == texts(old(parts)@).push(text@),
{
    parts.push(text);
    assert(texts(parts@) =~= texts(old(parts)@).push(text@));
}

/// The pieces one after the other.
pub open spec fn joined(parts: Seq<Seq<char>>, between: Seq<char>) -> Seq<char>
    decreases parts.len(),
{
    if parts.len() == 0 {
        Seq::<char>::empty()
    } else if parts.len() == 1 {
        parts[0]
    } else {
        joined(parts.drop_last(), between) + between + parts.last()
    }
}

/// The parts in order, with `between` between each two.
pub fn join(parts: &Vec<String>, between: &str) -> (r: String)
    ensures
        r@ == joined(texts(parts@), between@),
{
    let mut r: String = String::new();
    for i in 0..parts.len()
        invariant
            r@ == joined(texts(parts@).take(i as int), between@),
    {
        proof {
            assert(texts(parts@).take(i + 1).drop_last() == texts(parts@).take(i as int));
        }
        if i > 0 {
            r.append(between);
        }
        r.append(&parts[i]);
    }
    assert(texts(parts@).take(parts@.len() as int) == texts(parts@));
    r
}

/// The two texts, the second after the first.
pub fn concat(a: &str, b: &str) -> (r: String)
    ensures
        r@ == a@ + b@,
{
    let mut r: String = a.to_owned();
    r.append(b);
    r
}

// --------------------------------------------------------------------- numbers

/// The value of a digit in a base of up to 36.
pub open spec fn digit_value(c: char) -> Option<nat> {
    if '0' <= c <= '9' {
        Some((c as u32 - '0' as u32) as nat)
    } else if 'a' <= c <= 'z' {
        Some((c as u32 - 'a' as u32 + 10) as nat)
    } else if 'A' <= c <= 'Z' {
        Some((c as u32 - 'A' as u32 + 10) as nat)
    } else {
        None
    }
}

/// Every character of `s` is a digit in `base`.
pub open spec fn all_digits(s: Seq<char>, base: nat) -> bool {
    forall|i: int| 0 <= i < s.len() ==> (#[trigger] digit_value(s[i]) matches Some(d) && d < base)
}

/// The number that the digits of `s` write in `base`.
pub open spec fn digits_value(s: Seq<char>, base: nat) -> nat
    decreases s.len(),
{
    if s.len() == 0 {
        0
    } else {
        digits_value(s.drop_last(), base) * base + digit_value(s.last())->0
    }
}

/// The natural number that `s` writes in `base`: digits, at least one, behind
/// an optional plus sign.
pub open spec fn natural(s: Seq<char>, base: nat) -> Option<nat> {
    let digits = if s.len() > 0 && s[0] == '+' {
        s.drop_first()
    } else {
        s
    };
    if digits.len() > 0 && all_digits(digits, base) {
        Some(digits_value(digits, base))
    } else {
        None
    }
}

/// The integer that `s` writes in decimal, behind an optional sign.
pub open spec fn integer(s: Seq<char>) -> Option<int> {
    if s.len() > 0 && s[0] == '-' {
        let digits = s.drop_first();
        if digits.len() > 0 && all_digits(digits, 10) {
            Some(-digits_value(digits, 10))
        } else {
            None
        }
    } else {
        match natural(s, 10) {
            Some(n) => Some(n as int),
            None => None,
        }
    }
}

fn digit_of(c: char) -> (r: Option<u64>)
    ensures
        match r {
            Some(d) => digit_value(c) == Some(d as nat) && d < 36,
            None => digit_value(c) is None,
        },
{
    if '0' <= c && c <= '9' {
        Some((c as u32 - '0' as u32) as u64)
    } else if 'a' <= c && c <= 'z' {
        Some((c as u32 - 'a' as u32 + 10) as u64)
    } else if 'A' <= c && c <= 'Z' {
        Some((c as u32 - 'A' as u32 + 10) as u64)
    } else {
        None
    }
}

/// What is known of `digits[from..]` once they are read in `base`: the value
/// where it is at most `max`, `None` where it is larger, there is no digit, or
/// something else stands there.
fn read_digits(digits: &Vec<char>, from: usize, base: u64, max: u64) -> (r: Option<u64>)
    requires
        from <= digits@.len(),
        2 <= base <= 36,
    ensures
        ({
            let tail = digits@.subrange(from as int, digits@.len() as int);
            match r {
                Some(n) => {
                    &&& tail.len() > 0
                    &&& all_digits(tail, base as nat)
                    &&& n == digits_value(tail, base as nat)
                    &&& n <= max
                },
                None => !(tail.len() > 0 && all_digits(tail, base as nat) && digits_value(
                    tail,
                    base as nat,
                ) <= max),
            }
        }),
{
    let ghost tail = digits@.subrange(from as int, digits@.len() as int);
    if from == digits.len() {
        return None;
    }
    let mut value: u64 = 0;
    let mut fits: bool = true;
    assert(tail.take(0) == Seq::<char>::empty());
    for i in from..digits.len()
        invariant
            2 <= base <= 36,
            from <= digits@.len(),
            tail == digits@.subrange(from as int, digits@.len() as int),
            all_digits(tail.take(i - from), base as nat),
            fits ==> value == digits_value(tail.take(i - from), base as nat) && value <= max,
            !fits ==> digits_value(tail.take(i - from), base as nat) > max,
    {
        let ghost done = tail.take(i - from);
        let ghost next = tail.take(i + 1 - from);
        proof {
            assert(next.drop_last() == done);
            assert(next.last() == digits@[i as int]);
        }
        match digit_of(digits[i]) {
            Some(d) => {
                if d >= base {
                    assert(tail[i - from] == digits@[i as int]);
                    assert(!all_digits(tail, base as nat));
                    return None;
                }
                proof {
                    assert forall|j: int| 0 <= j < next.len() implies (#[trigger] digit_value(
                        next[j],
                    ) matches Some(e) && e < base) by {
                        if j < i - from {
                            assert(next[j] == done[j]);
                        }
                    }
                    assert(digits_value(next, base as nat) == digits_value(done, base as nat)
                        * base as nat + d as nat);
                    assert(digits_value(done, base as nat) * base as nat >= digits_value(
                        done,
                        base as nat,
                    )) by (nonlinear_arith)
                        requires
                            base >= 2,
                    ;
                }
                if fits {
                    assert(value as u128 * base as u128 <= 0xffff_ffff_ffff_ffff * 36)
                        by (nonlinear_arith)
                        requires
                            value <= 0xffff_ffff_ffff_ffff,
                            base <= 36,
                    ;
                    let wide: u128 = value as u128 * base as u128;
                    let wide: u128 = wide + d as u128;
                    if wide > max as u128 {
                        fits = false;
                    } else {
                        value = wide as u64;
                    }
                }
            },
            None => {
                assert(tail[i - from] == digits@[i as int]);
                assert(!all_digits(tail, base as nat));
                return None;
            },
        }
    }
    assert(tail.take(digits@.len() - from) == tail);
    if fits {
        Some(value)
    } else {
        None
    }
}

/// The natural number that `text` writes in `base`, where it is at most `max`.
pub fn parse_natural(text: &str, base: u64, max: u64) -> (r: Option<u64>)
    requires
        2 <= base <= 36,
    ensures
        match r {
            Some(n) => natural(text@, base as nat) == Some(n as nat) && n <= max,
            None => !(natural(text@, base as nat) matches Some(n) && n <= max),
        },
{
    let chars = chars_of(text);
    let from: usize = if chars.len() > 0 && chars[0] == '+' {
        1
    } else {
        0
    };
    assert(chars@.subrange(0, chars@.len() as int) == chars@);
    assert(chars@.len() > 0 ==> chars@.subrange(1, chars@.len() as int) == chars@.drop_first());
    read_digits(&chars, from, base, max)
}

/// The integer that `text` writes in decimal, where it fits.
pub fn parse_i64(text: &str) -> (r: Option<i64>)
    ensures
        match r {
            Some(n) => integer(text@) == Some(n as int),
            None => !(integer(text@) matches Some(n) && i64::MIN <= n <= i64::MAX),
        },
{
    let chars = chars_of(text);
    if chars.len() > 0 && chars[0] == '-' {
        assert(chars@.subrange(1, chars@.len() as int) == chars@.drop_first());
        match read_digits(&chars, 1, 10, 0x8000_0000_0000_0000) {
            Some(n) => {
                if n == 0x8000_0000_0000_0000 {
                    Some(i64::MIN)
                } else {
                    Some(-(n as i64))
                }
            },
            None => None,
        }
    } else {
        match parse_natural(text, 10, 0x7fff_ffff_ffff_ffff) {
            Some(n) => Some(n as i64),
            None => None,
        }
    }
}

/// The decimal digits of `n`, without leading zeros.
pub open spec fn decimal(n: nat) -> Seq<char>
    decreases n,
{
    if n < 10 {
        seq![('0' as u32 + n) as char]
    } else {
        decimal(n / 10).push(('0' as u32 + n % 10) as char)
    }
}

/// `n` in decimal, with a minus sign where it is negative.
pub open spec fn signed_decimal(n: int) -> Seq<char> {
    if n < 0 {
        seq!['-'] + decimal((-n) as nat)
    } else {
        decimal(n as nat)
    }
}

/// The decimal digits of `n`.
pub fn show_natural(n: u64) -> (r: String)
    ensures
        r@ == decimal(n as nat),
    decreases n,
{
    let digit: char = ((n % 10) as u8 + 48) as char;
    if n < 10 {
        let mut r: String = String::new();
        r.push(digit);
        assert(r@ =~= decimal(n as nat));
        r
    } else {
        let mut r = show_natural(n / 10);
        r.push(digit);
        r
    }
}

/// `n` in decimal.
pub fn show_i64(n: i64) -> (r: String)
    ensures
        r@ == signed_decimal(n as int),
{
    if n >= 0 {
        show_natural(n as u64)
    } else {
        let size: u64 = if n == i64::MIN {
            0x8000_0000_0000_0000
        } else {
            (-n) as u64
        };
        let digits = show_natural(size);
        let mut r: String = String::new();
        r.push('-');
        r.append(&digits);
        assert(r@ =~= signed_decimal(n as int));
        r
    }
}

// ------------------------------------------------------------------------ laws

/// Putting the separator back between the pieces gives the text again.
pub proof fn law_join_undoes_split(s: Seq<char>, separator: char)
    ensures
        joined(split_on(s, separator), seq![separator]) == s,
    decreases s.len(),
{
    let parts = split_on(s, separator);
    lemma_split_not_empty(s, separator);
    if s.len() == 0 {
    } else {
        let before = split_on(s.drop_last(), separator);
        law_join_undoes_split(s.drop_last(), separator);
        lemma_split_not_empty(s.drop_last(), separator);
        if s.last() == separator {
            assert(parts.drop_last() == before);
            assert(joined(parts, seq![separator]) =~= s.drop_last() + seq![separator]);
            assert(s =~= s.drop_last() + seq![separator]);
        } else {
            assert(parts.drop_last() == before.drop_last());
            assert(parts.last() == before.last().push(s.last()));
            assert(joined(parts, seq![separator]) =~= joined(before, seq![separator]).push(
                s.last(),
            ));
            assert(s =~= s.drop_last().push(s.last()));
        }
    }
}

/// Reading the decimal digits of a number gives the number again.
pub proof fn law_parse_undoes_show(n: nat)
    ensures
        natural(decimal(n), 10) == Some(n),
    decreases n,
{
    lemma_decimal_digits(n);
    assert(decimal(n)[0] != '+');
}

proof fn lemma_decimal_digits(n: nat)
    ensures
        decimal(n).len() > 0,
        all_digits(decimal(n), 10),
        digits_value(decimal(n), 10) == n,
        decimal(n)[0] != '+',
    decreases n,
{
    let last = ('0' as u32 + n % 10) as char;
    assert(digit_value(last) == Some(n % 10));
    if n < 10 {
        assert(decimal(n).drop_last() =~= Seq::<char>::empty());
        assert(digits_value(Seq::<char>::empty(), 10) == 0);
    } else {
        lemma_decimal_digits(n / 10);
        assert(decimal(n).drop_last() =~= decimal(n / 10));
        assert forall|i: int| 0 <= i < decimal(n).len() implies (#[trigger] digit_value(
            decimal(n)[i],
        ) matches Some(d) && d < 10) by {
            if i < decimal(n).len() - 1 {
                assert(decimal(n)[i] == decimal(n / 10)[i]);
            }
        }
    }
}

proof fn lemma_prefix_gone(s: Seq<char>, drop: spec_fn(char) -> bool)
    ensures
        without_prefix(s, drop).len() > 0 ==> !drop(without_prefix(s, drop)[0]),
    decreases s.len(),
{
    if s.len() > 0 && drop(s[0]) {
        lemma_prefix_gone(s.drop_first(), drop);
    }
}

proof fn lemma_suffix_gone(s: Seq<char>, drop: spec_fn(char) -> bool)
    ensures
        ({
            let t = without_suffix(s, drop);
            &&& t.len() <= s.len()
            &&& t.len() > 0 ==> !drop(t.last()) && t[0] == s[0]
        }),
    decreases s.len(),
{
    if s.len() > 0 && drop(s.last()) {
        lemma_suffix_gone(s.drop_last(), drop);
    }
}

/// What is left of a text without the white space around it has none around it.
pub proof fn law_trimmed_ends(s: Seq<char>)
    ensures
        trimmed(s).len() > 0 ==> !is_space(trimmed(s)[0]) && !is_space(trimmed(s).last()),
{
    let space = |c: char| is_space(c);
    lemma_prefix_gone(s, space);
    lemma_suffix_gone(without_prefix(s, space), space);
}

/// A text with no white space around it is left as it is.
pub proof fn law_trim_keeps(s: Seq<char>)
    requires
        s.len() > 0 ==> !is_space(s[0]) && !is_space(s.last()),
    ensures
        trimmed(s) == s,
{
}

/// Writing in lower case changes no white space, and nothing the second time.
pub proof fn law_lower_settles(s: Seq<char>)
    ensures
        lower(lower(s)) == lower(s),
        lower(s).len() == s.len(),
        forall|i: int| 0 <= i < s.len() ==> is_space(#[trigger] lower(s)[i]) == is_space(s[i]),
{
    assert(lower(lower(s)) =~= lower(s));
}

/// A text is in lower case letter by letter: a capital of ASCII becomes its small letter,
/// and every other character stays. Capitals come about the other way round.
pub proof fn law_letters(s: Seq<char>, i: int)
    requires
        0 <= i < s.len(),
    ensures
        lower(s).len() == s.len(),
        upper(s).len() == s.len(),
        'A' <= s[i] <= 'Z' ==> lower(s)[i] as u32 == s[i] as u32 + 32,
        !('A' <= s[i] <= 'Z') ==> lower(s)[i] == s[i],
        'a' <= s[i] <= 'z' ==> upper(s)[i] as u32 == s[i] as u32 - 32,
        !('a' <= s[i] <= 'z') ==> upper(s)[i] == s[i],
{
}

/// Of a squashed text nothing is left but its letters and digits of ASCII, in order, the
/// capitals in lower case.
pub proof fn law_squashed(s: Seq<char>, c: char)
    ensures
        squashed(Seq::empty()).len() == 0,
        'a' <= c <= 'z' || '0' <= c <= '9' ==> squashed(s.push(c)) == squashed(s).push(c),
        'A' <= c <= 'Z' ==> squashed(s.push(c)) == squashed(s).push(((c as u32) + 32) as char),
        !('a' <= c <= 'z') && !('0' <= c <= '9') && !('A' <= c <= 'Z') ==> squashed(s.push(c))
            == squashed(s),
{
    reveal(Seq::filter);
    let keep = |c: char| is_alphanumeric(c);
    assert(s.push(c).drop_last() =~= s);
    if keep(c) {
        assert(s.push(c).filter(keep) =~= s.filter(keep).push(c));
        assert(squashed(s.push(c)) =~= squashed(s).push(lower_char(c)));
    }
}

/// What is dropped at the start are the first characters that are to be dropped, all of
/// them and no other.
proof fn lemma_prefix_is(s: Seq<char>, drop: spec_fn(char) -> bool) -> (k: int)
    ensures
        0 <= k <= s.len(),
        without_prefix(s, drop) == s.subrange(k, s.len() as int),
        forall|i: int| 0 <= i < k ==> drop(#[trigger] s[i]),
    decreases s.len(),
{
    if s.len() > 0 && drop(s[0]) {
        let rest = s.drop_first();
        let k = lemma_prefix_is(rest, drop);
        assert(rest.subrange(k, rest.len() as int) =~= s.subrange(k + 1, s.len() as int));
        assert forall|i: int| 0 <= i < k + 1 implies drop(#[trigger] s[i]) by {
            if i > 0 {
                assert(rest[i - 1] == s[i]);
            }
        }
        k + 1
    } else {
        assert(s.subrange(0, s.len() as int) =~= s);
        0
    }
}

proof fn lemma_suffix_is(s: Seq<char>, drop: spec_fn(char) -> bool) -> (k: int)
    ensures
        0 <= k <= s.len(),
        without_suffix(s, drop) == s.take(k),
        forall|i: int| k <= i < s.len() ==> drop(#[trigger] s[i]),
    decreases s.len(),
{
    if s.len() > 0 && drop(s.last()) {
        let rest = s.drop_last();
        let k = lemma_suffix_is(rest, drop);
        assert(rest.take(k) =~= s.take(k));
        assert forall|i: int| k <= i < s.len() implies drop(#[trigger] s[i]) by {
            if i < rest.len() {
                assert(rest[i] == s[i]);
            }
        }
        k
    } else {
        assert(s.take(s.len() as int) =~= s);
        s.len() as int
    }
}

/// Trimming takes nothing but white space off a text, and nothing from within: what is left
/// is a piece of the text, with white space alone before and behind.
pub proof fn law_trimmed_is_the_middle(s: Seq<char>)
    ensures
        exists|from: int, to: int|
            0 <= from <= to <= s.len() && trimmed(s) == #[trigger] s.subrange(from, to) && (forall|
                i: int,
            |
                0 <= i < from ==> is_space(#[trigger] s[i])) && (forall|i: int|
                to <= i < s.len() ==> is_space(#[trigger] s[i])),
{
    let space = |c: char| is_space(c);
    let from = lemma_prefix_is(s, space);
    let rest = without_prefix(s, space);
    let k = lemma_suffix_is(rest, space);
    let to = from + k;
    assert(rest.take(k) =~= s.subrange(from, to));
    assert forall|i: int| 0 <= i < from implies is_space(#[trigger] s[i]) by {
        assert(space(s[i]));
    }
    assert forall|i: int| to <= i < s.len() implies is_space(#[trigger] s[i]) by {
        assert(rest[i - from] == s[i]);
        assert(space(rest[i - from]));
    }
}

/// Unwrapping takes nothing but the one character off either end, and all of it; at the
/// start alone likewise.
pub proof fn law_unwrapped(s: Seq<char>, c: char)
    ensures
        unprefixed(s, c).len() > 0 ==> unprefixed(s, c)[0] != c,
        exists|from: int|
            0 <= from <= s.len() && unprefixed(s, c) == #[trigger] s.subrange(from, s.len() as int)
                && forall|i: int| 0 <= i < from ==> #[trigger] s[i] == c,
        unwrapped(s, c).len() > 0 ==> unwrapped(s, c)[0] != c && unwrapped(s, c).last() != c,
        exists|from: int, to: int|
            0 <= from <= to <= s.len() && unwrapped(s, c) == #[trigger] s.subrange(from, to) && (
            forall|i: int| 0 <= i < from ==> #[trigger] s[i] == c) && (forall|i: int|
                to <= i < s.len() ==> #[trigger] s[i] == c),
{
    let drop = exactly(c);
    lemma_prefix_gone(s, drop);
    let rest = without_prefix(s, drop);
    lemma_suffix_gone(rest, drop);
    let from = lemma_prefix_is(s, drop);
    let k = lemma_suffix_is(rest, drop);
    let to = from + k;
    assert(rest.take(k) =~= s.subrange(from, to));
    assert forall|i: int| 0 <= i < from implies #[trigger] s[i] == c by {
        assert(drop(s[i]));
    }
    assert forall|i: int| to <= i < s.len() implies #[trigger] s[i] == c by {
        assert(rest[i - from] == s[i]);
        assert(drop(rest[i - from]));
    }
}

/// The pieces of a text hold no separator.
pub proof fn law_pieces_are_whole(s: Seq<char>, separator: char, i: int)
    requires
        0 <= i < split_on(s, separator).len(),
    ensures
        !split_on(s, separator)[i].contains(separator),
    decreases s.len(),
{
    if s.len() > 0 {
        let rest = s.drop_last();
        let before = split_on(rest, separator);
        let pieces = split_on(s, separator);
        lemma_split_not_empty(rest, separator);
        if i < before.len() - 1 || s.last() == separator {
            if i < before.len() {
                law_pieces_are_whole(rest, separator, i);
            }
        } else {
            law_pieces_are_whole(rest, separator, before.len() - 1);
            let piece = before.last();
            assert forall|k: int| 0 <= k < pieces[i].len() implies pieces[i][k] != separator by {
                if k < piece.len() {
                    assert(piece.contains(piece[k]));
                }
            }
        }
    }
}

/// A pattern occurs in a text exactly where the text is something, the pattern and
/// something else; and ends it where nothing follows.
pub proof fn law_occurs(a: Seq<char>, pattern: Seq<char>, b: Seq<char>)
    ensures
        occurs(a + pattern + b, pattern),
        ends_in(a + pattern, pattern),
{
    let s = a + pattern + b;
    assert(s.subrange(a.len() as int, (a.len() + pattern.len()) as int) =~= pattern);
    assert(occurs_at(s, pattern, a.len() as int));
    let t = a + pattern;
    assert(t.subrange(a.len() as int, (a.len() + pattern.len()) as int) =~= pattern);
}

/// The other way round.
pub proof fn law_occurs_within(s: Seq<char>, pattern: Seq<char>)
    ensures
        occurs(s, pattern) ==> exists|a: Seq<char>, b: Seq<char>| s == #[trigger] (a + pattern + b),
        ends_in(s, pattern) ==> exists|a: Seq<char>| s == #[trigger] (a + pattern),
{
    if occurs(s, pattern) {
        let at = choose|at: int| occurs_at(s, pattern, at);
        let a = s.take(at);
        let b = s.skip(at + pattern.len());
        assert(s =~= a + s.subrange(at, at + pattern.len()) + b);
        assert(s =~= a + pattern + b);
    }
    if ends_in(s, pattern) {
        let at = s.len() - pattern.len();
        let a = s.take(at);
        assert(s =~= a + s.subrange(at, at + pattern.len()));
        assert(s =~= a + pattern);
    }
}

/// A pattern is found where it first stands from a place on, and not only where it stands
/// nowhere from there on.
pub proof fn law_first_from(s: Seq<char>, pattern: Seq<char>, from: int)
    requires
        0 <= from <= s.len(),
    ensures
        match first_from(s, pattern, from) {
            Some(at) => from <= at && occurs_at(s, pattern, at) && forall|i: int|
                from <= i < at ==> !#[trigger] occurs_at(s, pattern, i),
            None => forall|i: int| from <= i ==> !#[trigger] occurs_at(s, pattern, i),
        },
    decreases s.len() - from,
{
    if !occurs_at(s, pattern, from) && from < s.len() {
        law_first_from(s, pattern, from + 1);
    }
}

/// Joining puts what goes between only between: one more part comes behind it, and a single
/// part is left as it is.
pub proof fn law_joined(parts: Seq<Seq<char>>, part: Seq<char>, between: Seq<char>)
    ensures
        joined(Seq::empty(), between).len() == 0,
        joined(seq![part], between) == part,
        parts.len() > 0 ==> joined(parts.push(part), between) == joined(parts, between) + between
            + part,
{
    assert(parts.push(part).drop_last() =~= parts);
}

/// A number is read digit by digit, in any base up to 36: letters count from ten on, in
/// either case.
pub proof fn law_digits(s: Seq<char>, c: char, base: nat)
    ensures
        digits_value(Seq::empty(), base) == 0,
        '0' <= c <= '9' ==> digits_value(s.push(c), base) == digits_value(s, base) * base + (
        c as u32 - '0' as u32),
        'a' <= c <= 'z' ==> digits_value(s.push(c), base) == digits_value(s, base) * base + (
        c as u32 - 'a' as u32 + 10),
        'A' <= c <= 'Z' ==> digits_value(s.push(c), base) == digits_value(s, base) * base + (
        c as u32 - 'A' as u32 + 10),
{
    assert(s.push(c).drop_last() =~= s);
}

/// A plus sign before a number changes nothing, and a minus sign its sign; a text that
/// holds anything else but digits is no number, and neither is an empty one.
pub proof fn law_signs(s: Seq<char>, base: nat)
    ensures
        s.len() > 0 && all_digits(s, base) && s[0] != '+' ==> natural(s, base) == Some(
            digits_value(s, base),
        ) && natural(seq!['+'] + s, base) == Some(digits_value(s, base)),
        s.len() > 0 && all_digits(s, 10) ==> integer(seq!['-'] + s) == Some(-digits_value(s, 10)),
        s.len() > 0 && s[0] != '-' ==> integer(s) == (match natural(s, 10) {
            Some(n) => Some(n as int),
            None => None,
        }),
        natural(Seq::empty(), base) is None,
        s.len() > 0 && s[0] != '+' && !all_digits(s, base) ==> natural(s, base) is None,
{
    assert((seq!['+'] + s).drop_first() =~= s);
    assert((seq!['-'] + s).drop_first() =~= s);
}

/// Reading a number that was written gives it again, with its sign.
pub proof fn law_integer_undoes_show(n: int)
    ensures
        integer(signed_decimal(n)) == Some(n),
{
    if n < 0 {
        lemma_decimal_digits((-n) as nat);
        assert((seq!['-'] + decimal((-n) as nat)).drop_first() =~= decimal((-n) as nat));
    } else {
        law_parse_undoes_show(n as nat);
        lemma_decimal_digits(n as nat);
        assert(digit_value(decimal(n as nat)[0]) is Some);
        assert(decimal(n as nat)[0] != '-');
    }
}

} // verus!
