//! Text as sequences of characters: the comparisons, searches, joins and decimal forms that the
//! rest of the library builds on, each stated over the characters of its arguments.

use vstd::prelude::*;

verus! {

/// `String::push` of std: the character goes behind the text that is there.
pub assume_specification[ String::push ](s: &mut String, c: char)
    ensures
        final(s)@ == old(s)@.push(c),
;

/// The texts that a sequence of strings holds.
pub open spec fn texts(v: Seq<String>) -> Seq<Seq<char>> {
    v.map_values(|s: String| s@)
}

/// The text that there may be.
pub open spec fn maybe_text(s: Option<String>) -> Option<Seq<char>> {
    match s {
        Some(x) => Some(x@),
        None => None,
    }
}

/// The characters of a text.
pub fn to_chars(s: &str) -> (r: Vec<char>)
    ensures
        r@ == s@,
{
    let mut out: Vec<char> = Vec::new();
    for c in it: s.chars()
        invariant
            out@ == it.seq().take(it.index() as int),
            it.seq() == s@,
    {
        out.push(c);
    }
    out
}

/// The text made of the characters from `from` up to, not with, `to`.
pub fn from_chars(v: &Vec<char>, from: usize, to: usize) -> (r: String)
    requires
        from <= to <= v@.len(),
    ensures
        r@ == v@.subrange(from as int, to as int),
{
    let mut out = String::new();
    let mut i: usize = from;
    while i < to
        invariant
            from <= i <= to <= v@.len(),
            out@ == v@.subrange(from as int, i as int),
        decreases to - i,
    {
        out.push(v[i]);
        i += 1;
    }
    out
}

/// Whether two texts are the same.
pub fn same(a: &str, b: &str) -> (r: bool)
    ensures
        r == (a@ == b@),
{
    a.to_owned() == b.to_owned()
}

/// Whether `list` holds `wanted`.
pub fn holds(list: &[String], wanted: &str) -> (r: bool)
    ensures
        r == texts(list@).contains(wanted@),
{
    let mut i: usize = 0;
    while i < list.len()
        invariant
            i <= list@.len(),
            forall|j: int| 0 <= j < i ==> list@[j]@ != wanted@,
        decreases list@.len() - i,
    {
        if same(&list[i], wanted) {
            assert(texts(list@)[i as int] == wanted@);
            return true;
        }
        i += 1;
    }
    false
}

/// A copy of a list of texts.
pub fn copied(list: &Vec<String>) -> (r: Vec<String>)
    ensures
        r@ == list@,
{
    let mut out: Vec<String> = Vec::new();
    let mut i: usize = 0;
    while i < list.len()
        invariant
            i <= list@.len(),
            out@ == list@.take(i as int),
        decreases list@.len() - i,
    {
        out.push(list[i].clone());
        i += 1;
    }
    out
}

// ---- quoting ----

/// The form that std's `Debug` gives a text: in double quotes, with escapes.
pub uninterp spec fn quoted(s: Seq<char>) -> Seq<char>;

/// `<str as Debug>::fmt` of std, through `format!` with `{:?}`; the form depends on the text
/// alone.
#[verifier::external_body]
pub(crate) fn quote(s: &str) -> (r: String)
    ensures
        r@ == quoted(s@),
{
    format!("{:?}", s)
}

/// The quoted forms of a list of texts.
pub open spec fn all_quoted(list: Seq<Seq<char>>) -> Seq<Seq<char>> {
    list.map_values(|s: Seq<char>| quoted(s))
}

/// The form that std's `Debug` gives a list of texts.
pub open spec fn quoted_list(list: Seq<Seq<char>>) -> Seq<char> {
    "["@ + joined(all_quoted(list), ", "@) + "]"@
}

/// A list of texts, quoted and in brackets.
pub fn quote_list(list: &Vec<String>) -> (r: String)
    ensures
        r@ == quoted_list(texts(list@)),
{
    let mut forms: Vec<String> = Vec::new();
    let mut i: usize = 0;
    let ghost want = all_quoted(texts(list@));
    while i < list.len()
        invariant
            i <= list@.len(),
            want == all_quoted(texts(list@)),
            texts(forms@) == want.take(i as int),
        decreases list@.len() - i,
    {
        let ghost had = forms@;
        let form = quote(&list[i]);
        forms.push(form);
        assert(texts(forms@) =~= texts(had).push(form@));
        i += 1;
        assert(texts(forms@) =~= want.take(i as int));
    }
    assert(want.take(list@.len() as int) =~= want);
    let mut out = "[".to_owned();
    out.append(&join(&forms, ", "));
    out.append("]");
    out
}

// ---- prefixes and occurrences ----

/// Whether `s` begins with `p`.
pub open spec fn has_prefix(s: Seq<char>, p: Seq<char>) -> bool {
    p.len() <= s.len() && s.take(p.len() as int) == p
}

/// What of `s` stands behind its first `p.len()` characters.
pub open spec fn after_prefix(s: Seq<char>, p: Seq<char>) -> Seq<char> {
    s.skip(p.len() as int)
}

/// Whether `p` occurs somewhere in `s`.
pub open spec fn occurs(s: Seq<char>, p: Seq<char>) -> bool {
    exists|i: int| occurs_at(s, p, i)
}

/// Whether `p` occurs in `s` from position `i` on.
pub open spec fn occurs_at(s: Seq<char>, p: Seq<char>, i: int) -> bool {
    0 <= i && i + p.len() <= s.len() && s.subrange(i, i + p.len()) == p
}

fn match_at(s: &Vec<char>, p: &Vec<char>, at: usize) -> (r: bool)
    requires
        at + p@.len() <= s@.len(),
    ensures
        r == occurs_at(s@, p@, at as int),
{
    let n: usize = s.len();
    let mut i: usize = 0;
    while i < p.len()
        invariant
            i <= p@.len(),
            n == s@.len(),
            at + p@.len() <= n,
            forall|j: int| 0 <= j < i ==> s@[at + j] == p@[j],
        decreases p@.len() - i,
    {
        if s[at + i] != p[i] {
            proof {
                assert(s@.subrange(at as int, at + p@.len())[i as int] == s@[at + i]);
            }
            return false;
        }
        i += 1;
    }
    assert(s@.subrange(at as int, at + p@.len()) =~= p@);
    true
}

/// Whether `s` begins with `p`.
pub fn starts_with(s: &str, p: &str) -> (r: bool)
    ensures
        r == has_prefix(s@, p@),
{
    let sc = to_chars(s);
    let pc = to_chars(p);
    if pc.len() > sc.len() {
        return false;
    }
    assert(s@.subrange(0, p@.len() as int) =~= s@.take(p@.len() as int));
    match_at(&sc, &pc, 0)
}

/// What stands behind `p` where `s` begins with it.
pub fn strip_prefix(s: &str, p: &str) -> (r: Option<String>)
    ensures
        r is Some <==> has_prefix(s@, p@),
        r matches Some(rest) ==> rest@ == after_prefix(s@, p@) && s@ == p@ + rest@,
{
    if !starts_with(s, p) {
        return None;
    }
    let sc = to_chars(s);
    let pc = to_chars(p);
    let rest = from_chars(&sc, pc.len(), sc.len());
    assert(rest@ =~= after_prefix(s@, p@));
    assert(s@ =~= s@.take(p@.len() as int) + s@.skip(p@.len() as int));
    Some(rest)
}

/// Whether `p` occurs in `s`.
pub fn contains(s: &str, p: &str) -> (r: bool)
    ensures
        r == occurs(s@, p@),
{
    let sc = to_chars(s);
    let pc = to_chars(p);
    if pc.len() > sc.len() {
        return false;
    }
    let last: usize = sc.len() - pc.len();
    let mut i: usize = 0;
    while i <= last
        invariant
            sc@ == s@,
            pc@ == p@,
            last == sc@.len() - pc@.len(),
            i <= last + 1,
            forall|j: int| 0 <= j < i ==> !occurs_at(s@, p@, j),
        decreases last + 1 - i,
    {
        if match_at(&sc, &pc, i) {
            return true;
        }
        if i == last {
            assert forall|j: int| !occurs_at(s@, p@, j) by {}
            return false;
        }
        i += 1;
    }
    false
}

/// Whether the character `c` occurs in `s`.
pub fn has_char(s: &str, c: char) -> (r: bool)
    ensures
        r == s@.contains(c),
{
    let sc = to_chars(s);
    let mut i: usize = 0;
    while i < sc.len()
        invariant
            sc@ == s@,
            i <= sc@.len(),
            forall|j: int| 0 <= j < i ==> s@[j] != c,
        decreases sc@.len() - i,
    {
        if sc[i] == c {
            assert(s@[i as int] == c);
            return true;
        }
        i += 1;
    }
    false
}

/// `s` with every `from` put as `to`.
pub open spec fn replaced(s: Seq<char>, from: char, to: char) -> Seq<char> {
    s.map_values(|c: char| if c == from { to } else { c })
}

/// A copy of `s` in which every `from` is a `to`.
pub fn replace_char(s: &str, from: char, to: char) -> (r: String)
    ensures
        r@ == replaced(s@, from, to),
{
    let sc = to_chars(s);
    let mut out = String::new();
    let mut i: usize = 0;
    while i < sc.len()
        invariant
            sc@ == s@,
            i <= sc@.len(),
            out@ == replaced(s@, from, to).take(i as int),
        decreases sc@.len() - i,
    {
        if sc[i] == from {
            out.push(to);
        } else {
            out.push(sc[i]);
        }
        i += 1;
        assert(out@ =~= replaced(s@, from, to).take(i as int));
    }
    assert(replaced(s@, from, to).take(sc@.len() as int) =~= replaced(s@, from, to));
    out
}

// ---- trimming and splitting ----

/// `s` without the run of `c` that it ends with.
pub open spec fn trimmed_end(s: Seq<char>, c: char) -> Seq<char>
    decreases s.len(),
{
    if s.len() > 0 && s.last() == c {
        trimmed_end(s.drop_last(), c)
    } else {
        s
    }
}

/// `s` without the run of `c` that it begins with.
pub open spec fn trimmed_start(s: Seq<char>, c: char) -> Seq<char>
    decreases s.len(),
{
    if s.len() > 0 && s.first() == c {
        trimmed_start(s.drop_first(), c)
    } else {
        s
    }
}

/// `s` without the runs of `c` at both of its ends.
pub open spec fn trimmed(s: Seq<char>, c: char) -> Seq<char> {
    trimmed_end(trimmed_start(s, c), c)
}

/// `s` without the run of `c` at its end.
pub fn trim_end(s: &str, c: char) -> (r: String)
    ensures
        r@ == trimmed_end(s@, c),
{
    let sc = to_chars(s);
    let mut n: usize = sc.len();
    assert(s@.take(n as int) =~= s@);
    while n > 0 && sc[n - 1] == c
        invariant
            sc@ == s@,
            n <= sc@.len(),
            trimmed_end(s@.take(n as int), c) == trimmed_end(s@, c),
        decreases n,
    {
        assert(s@.take(n as int).drop_last() =~= s@.take(n - 1));
        n -= 1;
    }
    let r = from_chars(&sc, 0, n);
    assert(r@ =~= s@.take(n as int));
    r
}

/// `s` without the runs of `c` at both ends.
pub fn trim_both(s: &str, c: char) -> (r: String)
    ensures
        r@ == trimmed(s@, c),
{
    let sc = to_chars(s);
    let mut n: usize = 0;
    assert(s@.skip(0) =~= s@);
    while n < sc.len() && sc[n] == c
        invariant
            sc@ == s@,
            n <= sc@.len(),
            trimmed_start(s@.skip(n as int), c) == trimmed_start(s@, c),
        decreases sc@.len() - n,
    {
        assert(s@.skip(n as int).drop_first() =~= s@.skip(n + 1));
        n += 1;
    }
    let rest = from_chars(&sc, n, sc.len());
    assert(rest@ =~= s@.skip(n as int));
    trim_end(&rest, c)
}

/// The parts of `s` between its occurrences of `c`, in order; one more than there are occurrences.
pub open spec fn parts(s: Seq<char>, c: char) -> Seq<Seq<char>>
    decreases s.len(),
{
    if s.len() == 0 {
        seq![Seq::<char>::empty()]
    } else {
        let before = parts(s.drop_last(), c);
        if s.last() == c {
            before.push(Seq::<char>::empty())
        } else {
            before.drop_last().push(before.last().push(s.last()))
        }
    }
}

/// There is always a part.
pub proof fn lemma_parts_some(s: Seq<char>, c: char)
    ensures
        parts(s, c).len() >= 1,
    decreases s.len(),
{
    if s.len() > 0 {
        lemma_parts_some(s.drop_last(), c);
    }
}

/// Splits `s` at each `c`.
pub fn split(s: &str, c: char) -> (r: Vec<String>)
    ensures
        texts(r@) == parts(s@, c),
        r@.len() >= 1,
{
    let sc = to_chars(s);
    let mut done: Vec<String> = Vec::new();
    let mut part = String::new();
    let mut i: usize = 0;
    assert(s@.take(0) =~= Seq::<char>::empty());
    assert(texts(done@).push(part@) =~= seq![Seq::<char>::empty()]);
    while i < sc.len()
        invariant
            sc@ == s@,
            i <= sc@.len(),
            texts(done@).push(part@) == parts(s@.take(i as int), c),
        decreases sc@.len() - i,
    {
        let ghost before = parts(s@.take(i as int), c);
        let ghost had = done@;
        let ghost was = part@;
        assert(s@.take(i + 1).drop_last() =~= s@.take(i as int));
        assert(before.last() == was);
        assert(before.drop_last() =~= texts(had));
        if sc[i] == c {
            done.push(part);
            part = String::new();
            assert(texts(done@) =~= before);
        } else {
            part.push(sc[i]);
        }
        i += 1;
        assert(texts(done@).push(part@) =~= parts(s@.take(i as int), c));
    }
    assert(s@.take(sc@.len() as int) =~= s@);
    done.push(part);
    assert(texts(done@) =~= parts(s@, c));
    done
}

/// A text without `c` is its own only part.
pub proof fn lemma_parts_plain(s: Seq<char>, c: char)
    requires
        !s.contains(c),
    ensures
        parts(s, c) == seq![s],
    decreases s.len(),
{
    if s.len() > 0 {
        assert(s.last() == s[s.len() - 1]);
        assert forall|x: char| s.drop_last().contains(x) implies s.contains(x) by {
            let i = choose|i: int| 0 <= i < s.drop_last().len() && s.drop_last()[i] == x;
            assert(s[i] == x);
        }
        lemma_parts_plain(s.drop_last(), c);
        assert(s.drop_last().push(s.last()) =~= s);
        assert(parts(s, c) =~= seq![s]);
    } else {
        assert(s =~= Seq::<char>::empty());
    }
}

/// A further part without `c`, set off by one `c`, is one more part.
pub proof fn lemma_parts_append(a: Seq<char>, c: char, b: Seq<char>)
    requires
        !b.contains(c),
    ensures
        parts(a.push(c) + b, c) == parts(a, c).push(b),
    decreases b.len(),
{
    let whole = a.push(c) + b;
    if b.len() == 0 {
        assert(whole =~= a.push(c));
        assert(whole.drop_last() =~= a);
        assert(b =~= Seq::<char>::empty());
    } else {
        assert(b.last() == b[b.len() - 1]);
        assert forall|x: char| b.drop_last().contains(x) implies b.contains(x) by {
            let i = choose|i: int| 0 <= i < b.drop_last().len() && b.drop_last()[i] == x;
            assert(b[i] == x);
        }
        lemma_parts_append(a, c, b.drop_last());
        assert(whole.drop_last() =~= a.push(c) + b.drop_last());
        assert(whole.last() == b.last());
        assert(b.drop_last().push(b.last()) =~= b);
        assert(parts(whole, c) =~= parts(a, c).push(b));
    }
}

/// No part holds the separator.
pub proof fn lemma_parts_clean(s: Seq<char>, c: char)
    ensures
        forall|i: int| 0 <= i < parts(s, c).len() ==> !(#[trigger] parts(s, c)[i]).contains(c),
    decreases s.len(),
{
    if s.len() > 0 {
        lemma_parts_clean(s.drop_last(), c);
        lemma_parts_some(s.drop_last(), c);
        let before = parts(s.drop_last(), c);
        assert forall|i: int| 0 <= i < parts(s, c).len() implies !(#[trigger] parts(
            s,
            c,
        )[i]).contains(c) by {
            if s.last() != c && i == before.len() - 1 {
                let p = parts(s, c)[i];
                if p.contains(c) {
                    let k = choose|k: int| 0 <= k < p.len() && p[k] == c;
                    assert(before.last()[k] == c);
                    assert(before[i].contains(c));
                }
            } else if i < before.len() {
                assert(parts(s, c)[i] == before[i]);
            }
        }
    }
}

// ---- joining ----

/// The texts of `list` in order, with `sep` between neighbours.
pub open spec fn joined(list: Seq<Seq<char>>, sep: Seq<char>) -> Seq<char>
    decreases list.len(),
{
    if list.len() == 0 {
        Seq::empty()
    } else if list.len() == 1 {
        list[0]
    } else {
        joined(list.drop_last(), sep) + sep + list.last()
    }
}

/// The texts of `list` in order, with `sep` between neighbours.
pub fn join(list: &Vec<String>, sep: &str) -> (r: String)
    ensures
        r@ == joined(texts(list@), sep@),
{
    let mut out = String::new();
    let mut i: usize = 0;
    while i < list.len()
        invariant
            i <= list@.len(),
            out@ == joined(texts(list@).take(i as int), sep@),
        decreases list@.len() - i,
    {
        let ghost next = texts(list@).take(i + 1);
        assert(next.drop_last() =~= texts(list@).take(i as int));
        assert(next.last() == list@[i as int]@);
        if i > 0 {
            out.append(sep);
        } else {
            assert(out@ =~= Seq::<char>::empty());
            assert(Seq::<char>::empty() + list@[0]@ =~= list@[0]@);
        }
        out.append(&list[i]);
        i += 1;
    }
    assert(texts(list@).take(list@.len() as int) =~= texts(list@));
    out
}

// ---- decimal numbers ----

/// The digit for a value below ten.
pub open spec fn digit(n: nat) -> char {
    (('0' as u32) + n) as char
}

/// `n` written in decimal, without leading zeros.
pub open spec fn decimal(n: nat) -> Seq<char>
    decreases n,
{
    if n < 10 {
        seq![digit(n)]
    } else {
        decimal(n / 10).push(digit(n % 10))
    }
}

/// Whether `c` is one of the ten digits.
pub open spec fn is_digit(c: char) -> bool {
    '0' <= c <= '9'
}

/// The number that a run of digits stands for.
pub open spec fn digits_value(s: Seq<char>) -> nat
    decreases s.len(),
{
    if s.len() == 0 {
        0
    } else {
        digits_value(s.drop_last()) * 10 + (s.last() as nat - '0' as nat) as nat
    }
}

/// `s` without one leading plus sign.
pub open spec fn without_plus(s: Seq<char>) -> Seq<char> {
    if s.len() > 0 && s[0] == '+' {
        s.skip(1)
    } else {
        s
    }
}

/// The 64-bit number that `s` spells: at least one digit, after an optional plus sign, with a
/// value that fits; nothing else spells one.
pub open spec fn parsed_u64(s: Seq<char>) -> Option<u64> {
    let d = without_plus(s);
    if d.len() > 0 && (forall|i: int| 0 <= i < d.len() ==> is_digit(#[trigger] d[i]))
        && digits_value(d) <= u64::MAX {
        Some(digits_value(d) as u64)
    } else {
        None
    }
}

fn digit_char(n: u64) -> (c: char)
    requires
        n < 10,
    ensures
        c == digit(n as nat),
{
    match n {
        0 => '0',
        1 => '1',
        2 => '2',
        3 => '3',
        4 => '4',
        5 => '5',
        6 => '6',
        7 => '7',
        8 => '8',
        _ => '9',
    }
}

/// `n` in decimal.
pub fn show_u64(n: u64) -> (r: String)
    ensures
        r@ == decimal(n as nat),
    decreases n,
{
    if n < 10 {
        let mut out = String::new();
        out.push(digit_char(n));
        assert(out@ =~= decimal(n as nat));
        out
    } else {
        let mut out = show_u64(n / 10);
        out.push(digit_char(n % 10));
        out
    }
}

/// The value of a longer run of digits is no smaller.
proof fn lemma_digits_grow(s: Seq<char>, n: int)
    requires
        0 <= n <= s.len(),
    ensures
        digits_value(s.take(n)) <= digits_value(s),
    decreases s.len() - n,
{
    if n < s.len() {
        lemma_digits_grow(s, n + 1);
        assert(s.take(n + 1).drop_last() =~= s.take(n));
    } else {
        assert(s.take(n) =~= s);
    }
}

/// Reads a 64-bit number.
pub fn parse_u64(s: &str) -> (r: Option<u64>)
    ensures
        r == parsed_u64(s@),
{
    let sc = to_chars(s);
    let mut from: usize = 0;
    if sc.len() > 0 && sc[0] == '+' {
        from = 1;
    }
    let ghost d = without_plus(s@);
    assert(d =~= s@.skip(from as int));
    if from == sc.len() {
        return None;
    }
    let mut value: u64 = 0;
    let mut i: usize = from;
    while i < sc.len()
        invariant
            sc@ == s@,
            d == s@.skip(from as int),
            d == without_plus(s@),
            from <= i <= sc@.len(),
            value == digits_value(d.take(i - from)),
            forall|j: int| 0 <= j < i - from ==> is_digit(#[trigger] d[j]),
        decreases sc@.len() - i,
    {
        let c = sc[i];
        assert(d[i - from] == c);
        if !(c >= '0' && c <= '9') {
            return None;
        }
        let v: u64 = (c as u64) - ('0' as u64);
        proof {
            let next = d.take(i - from + 1);
            assert(next.drop_last() =~= d.take(i - from));
            assert(next.last() == c);
            assert(digits_value(next) == value * 10 + v);
            lemma_digits_grow(d, i - from + 1);
        }
        if value > (u64::MAX - v) / 10 {
            assert(value * 10 + v > u64::MAX);
            return None;
        }
        value = value * 10 + v;
        i += 1;
    }
    assert(d.take(d.len() as int) =~= d);
    Some(value)
}

/// Every character of a decimal form is a digit, and there is at least one.
pub proof fn lemma_decimal_digits(n: nat)
    ensures
        decimal(n).len() >= 1,
        forall|i: int| 0 <= i < decimal(n).len() ==> is_digit(#[trigger] decimal(n)[i]),
        digits_value(decimal(n)) == n,
    decreases n,
{
    if n < 10 {
        reveal_with_fuel(digits_value, 2);
        assert(decimal(n).drop_last() =~= Seq::<char>::empty());
        assert(decimal(n).last() == digit(n));
    } else {
        lemma_decimal_digits(n / 10);
        assert(decimal(n).drop_last() =~= decimal(n / 10));
        assert(decimal(n).last() == digit(n % 10));
    }
}

/// A 64-bit number that is written in decimal reads back as itself.
pub proof fn law_decimal_reads_back(n: u64)
    ensures
        parsed_u64(decimal(n as nat)) == Some(n),
{
    lemma_decimal_digits(n as nat);
    let d = decimal(n as nat);
    assert(is_digit(d[0]));
    assert(without_plus(d) == d);
}

/// Different numbers have different decimal forms.
pub proof fn lemma_decimal_injective(a: nat, b: nat)
    requires
        decimal(a) == decimal(b),
    ensures
        a == b,
{
    lemma_decimal_digits(a);
    lemma_decimal_digits(b);
}

// ---- order ----

/// Whether `a` comes before `b` in the order of texts, or is `b`: by the first character in which
/// they differ, and a text before its extensions.
pub open spec fn text_le(a: Seq<char>, b: Seq<char>) -> bool
    decreases a.len(),
{
    if a.len() == 0 {
        true
    } else if b.len() == 0 {
        false
    } else if a[0] != b[0] {
        a[0] < b[0]
    } else {
        text_le(a.drop_first(), b.drop_first())
    }
}

pub proof fn lemma_text_le_reflexive(a: Seq<char>)
    ensures
        text_le(a, a),
    decreases a.len(),
{
    if a.len() > 0 {
        lemma_text_le_reflexive(a.drop_first());
    }
}

pub proof fn lemma_text_le_total(a: Seq<char>, b: Seq<char>)
    ensures
        text_le(a, b) || text_le(b, a),
    decreases a.len(),
{
    if a.len() > 0 && b.len() > 0 && a[0] == b[0] {
        lemma_text_le_total(a.drop_first(), b.drop_first());
    }
}

pub proof fn lemma_text_le_antisymmetric(a: Seq<char>, b: Seq<char>)
    requires
        text_le(a, b),
        text_le(b, a),
    ensures
        a == b,
    decreases a.len(),
{
    if a.len() == 0 {
        assert(a =~= b);
    } else {
        lemma_text_le_antisymmetric(a.drop_first(), b.drop_first());
        assert(a =~= seq![a[0]] + a.drop_first());
        assert(b =~= seq![b[0]] + b.drop_first());
    }
}

pub proof fn lemma_text_le_transitive(a: Seq<char>, b: Seq<char>, c: Seq<char>)
    requires
        text_le(a, b),
        text_le(b, c),
    ensures
        text_le(a, c),
    decreases a.len(),
{
    if a.len() > 0 && a[0] == b[0] && b[0] == c[0] {
        lemma_text_le_transitive(a.drop_first(), b.drop_first(), c.drop_first());
    }
}

/// Whether `a` comes before `b` in the order of texts, or is `b`.
pub fn at_most(a: &str, b: &str) -> (r: bool)
    ensures
        r == text_le(a@, b@),
{
    let ac = to_chars(a);
    let bc = to_chars(b);
    let mut i: usize = 0;
    assert(a@.skip(0) =~= a@);
    assert(b@.skip(0) =~= b@);
    while i < ac.len()
        invariant
            ac@ == a@,
            bc@ == b@,
            i <= ac@.len(),
            i <= bc@.len(),
            text_le(a@, b@) == text_le(a@.skip(i as int), b@.skip(i as int)),
        decreases ac@.len() - i,
    {
        if i == bc.len() {
            return false;
        }
        if ac[i] != bc[i] {
            return ac[i] < bc[i];
        }
        assert(a@.skip(i as int).drop_first() =~= a@.skip(i + 1));
        assert(b@.skip(i as int).drop_first() =~= b@.skip(i + 1));
        i += 1;
    }
    true
}

/// Whether the texts stand in order.
pub open spec fn in_order(list: Seq<Seq<char>>) -> bool {
    forall|i: int, j: int| 0 <= i <= j < list.len() ==> text_le(#[trigger] list[i], #[trigger] list[j])
}

/// Whether `r` is `list`, put in order.
pub open spec fn sorted_from(r: Seq<Seq<char>>, list: Seq<Seq<char>>) -> bool {
    in_order(r) && r.to_multiset() == list.to_multiset()
}

/// A list can be put in order in one way only.
pub proof fn law_order_is_unique(a: Seq<Seq<char>>, b: Seq<Seq<char>>, list: Seq<Seq<char>>)
    requires
        sorted_from(a, list),
        sorted_from(b, list),
    ensures
        a == b,
{
    let leq = |x: Seq<char>, y: Seq<char>| text_le(x, y);
    assert forall|x: Seq<char>| #[trigger] leq(x, x) by {
        lemma_text_le_reflexive(x);
    }
    assert forall|x: Seq<char>, y: Seq<char>| #[trigger] leq(x, y) && #[trigger] leq(
        y,
        x,
    ) implies x == y by {
        lemma_text_le_antisymmetric(x, y);
    }
    assert forall|x: Seq<char>, y: Seq<char>, z: Seq<char>| #[trigger]
        leq(x, y) && #[trigger] leq(y, z) implies leq(x, z) by {
        lemma_text_le_transitive(x, y, z);
    }
    assert forall|x: Seq<char>, y: Seq<char>| #[trigger] leq(x, y) || #[trigger] leq(y, x) by {
        lemma_text_le_total(x, y);
    }
    vstd::seq_lib::lemma_sorted_unique(a, b, leq);
}

/// Puts `item` into a list that stands in order, before the first text that comes after it.
fn insert_in_order(list: &mut Vec<String>, item: String)
    requires
        in_order(texts(old(list)@)),
    ensures
        in_order(texts(final(list)@)),
        texts(final(list)@).to_multiset() == texts(old(list)@).to_multiset().insert(item@),
{
    let ghost had = list@;
    let mut at: usize = 0;
    while at < list.len() && at_most(&list[at], &item)
        invariant
            list@ == had,
            at <= list@.len(),
            forall|j: int| 0 <= j < at ==> text_le(#[trigger] texts(had)[j], item@),
        decreases list@.len() - at,
    {
        assert(texts(had)[at as int] == had[at as int]@);
        at += 1;
    }
    list.insert(at, item);
    proof {
        let t = texts(list@);
        let o = texts(had);
        assert(t =~= o.take(at as int).push(item@) + o.skip(at as int));
        vstd::seq_lib::lemma_multiset_commutative(o.take(at as int).push(item@), o.skip(at as int));
        vstd::seq_lib::lemma_multiset_commutative(o.take(at as int), o.skip(at as int));
        assert(o =~= o.take(at as int) + o.skip(at as int));
        broadcast use vstd::seq_lib::group_to_multiset_ensures;
        assert(t.to_multiset() =~= o.to_multiset().insert(item@));
        assert forall|i: int, j: int| 0 <= i <= j < t.len() implies text_le(
            #[trigger] t[i],
            #[trigger] t[j],
        ) by {
            let oi: int = if i < at { i } else { i - 1 };
            let oj: int = if j < at { j } else { j - 1 };
            if i != at {
                assert(t[i] == o[oi]);
            }
            if j != at {
                assert(t[j] == o[oj]);
            }
            if i == at && j == at {
                lemma_text_le_reflexive(item@);
            } else if i == at {
                assert(at < had.len());
                assert(!text_le(o[at as int], item@));
                lemma_text_le_total(o[at as int], item@);
                assert(text_le(o[at as int], o[oj]));
                lemma_text_le_transitive(item@, o[at as int], o[oj]);
            } else if j == at {
                assert(text_le(o[oi], item@));
            } else {
                assert(text_le(o[oi], o[oj]));
            }
        }
    }
}

/// The same texts, put in order.
pub fn sorted(list: Vec<String>) -> (r: Vec<String>)
    ensures
        sorted_from(texts(r@), texts(list@)),
{
    let mut out: Vec<String> = Vec::new();
    let mut i: usize = 0;
    assert(texts(list@).take(0) =~= texts(out@));
    while i < list.len()
        invariant
            i <= list@.len(),
            in_order(texts(out@)),
            texts(out@).to_multiset() == texts(list@).take(i as int).to_multiset(),
        decreases list@.len() - i,
    {
        insert_in_order(&mut out, list[i].clone());
        proof {
            broadcast use vstd::seq_lib::group_to_multiset_ensures;
            assert(texts(list@).take(i + 1) =~= texts(list@).take(i as int).push(list@[i as int]@));
        }
        i += 1;
    }
    assert(texts(list@).take(list@.len() as int) =~= texts(list@));
    out
}

// ---- what splitting and joining come to ----

/// A list that is put together from two is joined as the one, the separator, and the other.
pub proof fn law_joining_goes_piece_by_piece(
    a: Seq<Seq<char>>,
    b: Seq<Seq<char>>,
    sep: Seq<char>,
)
    requires
        a.len() > 0,
        b.len() > 0,
    ensures
        joined(a + b, sep) == joined(a, sep) + sep + joined(b, sep),
    decreases b.len(),
{
    let whole = a + b;
    assert(whole.drop_last() =~= a + b.drop_last());
    assert(whole.last() == b.last());
    if b.len() == 1 {
        assert(whole.drop_last() =~= a);
        assert(b.last() == b[0]);
    } else {
        law_joining_goes_piece_by_piece(a, b.drop_last(), sep);
        assert(joined(a, sep) + sep + joined(b.drop_last(), sep) + sep + b.last() =~= joined(a, sep)
            + sep + (joined(b.drop_last(), sep) + sep + b.last()));
    }
}

/// A list is one text where it has one text, and none where it is empty.
pub proof fn law_joining_one_text_adds_nothing(s: Seq<char>, sep: Seq<char>)
    ensures
        joined(seq![s], sep) == s,
        joined(Seq::empty(), sep) == Seq::<char>::empty(),
{
}

/// Texts without the separator come back, all and in their order, when what they were joined to is
/// split at it.
pub proof fn law_splitting_undoes_joining(list: Seq<Seq<char>>, c: char)
    requires
        list.len() > 0,
        forall|i: int| 0 <= i < list.len() ==> !(#[trigger] list[i]).contains(c),
    ensures
        parts(joined(list, seq![c]), c) == list,
    decreases list.len(),
{
    let last = list.last();
    assert(last == list[list.len() - 1]);
    if list.len() == 1 {
        lemma_parts_plain(list[0], c);
        assert(list =~= seq![list[0]]);
    } else {
        let front = list.drop_last();
        assert forall|i: int| 0 <= i < front.len() implies !(#[trigger] front[i]).contains(c) by {
            assert(front[i] == list[i]);
        }
        law_splitting_undoes_joining(front, c);
        let before = joined(front, seq![c]);
        assert(before + seq![c] + last =~= before.push(c) + last);
        lemma_parts_append(before, c, last);
        assert(front.push(last) =~= list);
    }
}

/// What a text is split to is without the separator, and joined by it is the text again.
pub proof fn law_joining_undoes_splitting(s: Seq<char>, c: char)
    ensures
        parts(s, c).len() >= 1,
        forall|i: int| 0 <= i < parts(s, c).len() ==> !(#[trigger] parts(s, c)[i]).contains(c),
        joined(parts(s, c), seq![c]) == s,
    decreases s.len(),
{
    lemma_parts_some(s, c);
    lemma_parts_clean(s, c);
    let all = parts(s, c);
    if s.len() == 0 {
        assert(s =~= Seq::<char>::empty());
    } else {
        let before = parts(s.drop_last(), c);
        law_joining_undoes_splitting(s.drop_last(), c);
        assert(s =~= s.drop_last().push(s.last()));
        if s.last() == c {
            assert(all.drop_last() =~= before);
            assert(joined(before, seq![c]) + seq![c] + Seq::<char>::empty() =~= s);
        } else {
            let front = before.drop_last();
            assert(all.drop_last() =~= front);
            if before.len() == 1 {
                assert(before.last() == before[0]);
                assert(all[0] == before[0].push(s.last()));
            } else {
                assert(joined(front, seq![c]) + seq![c] + before.last().push(s.last()) =~= (joined(
                    front,
                    seq![c],
                ) + seq![c] + before.last()).push(s.last()));
            }
        }
    }
}

/// A decimal number is written with its digits, the last one behind those of its tens, and without
/// a leading zero.
pub proof fn law_decimal_writes_digit_by_digit(n: nat)
    ensures
        n == 0 ==> decimal(n) == seq!['0'],
        n > 0 ==> decimal(n)[0] != '0',
        n >= 10 ==> decimal(n) == decimal(n / 10) + decimal(n % 10),
        n < 10 ==> decimal(n).len() == 1 && decimal(n)[0] as u32 == 48 + n,
    decreases n,
{
    if n >= 10 {
        law_decimal_writes_digit_by_digit(n / 10);
        assert(decimal(n) =~= decimal(n / 10) + decimal(n % 10));
    }
}

/// Trimming takes away every `c` at the end, and nothing else.
pub proof fn law_trimming_takes_the_end_away(s: Seq<char>, c: char) -> (n: nat)
    ensures
        s == trimmed_end(s, c) + Seq::new(n, |i: int| c),
        trimmed_end(s, c).len() > 0 ==> trimmed_end(s, c).last() != c,
    decreases s.len(),
{
    if s.len() > 0 && s.last() == c {
        let n = law_trimming_takes_the_end_away(s.drop_last(), c);
        let m = (n + 1) as nat;
        assert(s =~= s.drop_last().push(c));
        assert(s =~= trimmed_end(s, c) + Seq::new(m, |i: int| c));
        m
    } else {
        assert(s =~= trimmed_end(s, c) + Seq::new(0, |i: int| c));
        0
    }
}

/// Replacing changes one character into another wherever it stands, and nothing else.
pub proof fn law_replacing_changes_one_character(s: Seq<char>, from: char, to: char, i: int)
    requires
        0 <= i < s.len(),
    ensures
        replaced(s, from, to).len() == s.len(),
        s[i] == from ==> replaced(s, from, to)[i] == to,
        s[i] != from ==> replaced(s, from, to)[i] == s[i],
{
}

/// What spells a number: digits, at least one, behind a plus sign or not, and nothing else.
pub proof fn law_what_spells_a_number(s: Seq<char>, i: int)
    ensures
        s.len() == 0 ==> parsed_u64(s) is None,
        0 < i < s.len() && !('0' <= s[i] <= '9') ==> parsed_u64(s) is None,
        s.len() > 0 && !('0' <= s[0] <= '9') && s[0] != '+' ==> parsed_u64(s) is None,
        parsed_u64(s) is Some && s[0] != '+' ==> parsed_u64(seq!['+'] + s) == parsed_u64(s),
{
    let d = without_plus(s);
    if 0 < i < s.len() && !('0' <= s[i] <= '9') {
        if s[0] == '+' {
            assert(d[i - 1] == s[i]);
            assert(!is_digit(d[i - 1]));
        } else {
            assert(!is_digit(d[i]));
        }
    }
    if s.len() > 0 && !('0' <= s[0] <= '9') && s[0] != '+' {
        assert(!is_digit(d[0]));
    }
    assert((seq!['+'] + s).skip(1) =~= s);
}

/// Texts are ordered by the first character in which they differ, and a text stands before those
/// that it begins.
pub proof fn law_texts_are_ordered_by_the_first_difference(a: Seq<char>, b: Seq<char>, n: int)
    requires
        0 <= n <= a.len(),
        n <= b.len(),
        forall|i: int| 0 <= i < n ==> a[i] == b[i],
        n < a.len() ==> n < b.len() && a[n] < b[n],
    ensures
        text_le(a, b),
        n < a.len() || n < b.len() ==> !text_le(b, a),
    decreases n,
{
    if n > 0 {
        assert(a[0] == b[0]);
        let (x, y) = (a.drop_first(), b.drop_first());
        assert forall|i: int| 0 <= i < n - 1 implies x[i] == y[i] by {
            assert(a[i + 1] == b[i + 1]);
        }
        law_texts_are_ordered_by_the_first_difference(x, y, n - 1);
    }
}

/// What is put in order holds the same texts, each as often, and each stands before those that are
/// not smaller.
pub proof fn law_sorting_keeps_every_text(r: Seq<Seq<char>>, list: Seq<Seq<char>>, s: Seq<char>)
    requires
        sorted_from(r, list),
    ensures
        r.len() == list.len(),
        r.contains(s) <==> list.contains(s),
        forall|i: int, j: int| 0 <= i < j < r.len() ==> text_le(#[trigger] r[i], #[trigger] r[j]),
{
    broadcast use vstd::seq_lib::group_to_multiset_ensures;

    assert(r.to_multiset().len() == list.to_multiset().len());
    assert(r.to_multiset().count(s) == list.to_multiset().count(s));
}

/// A list is quoted text by text, with commas between them and brackets around them.
pub proof fn law_lists_are_quoted_text_by_text(a: Seq<Seq<char>>, s: Seq<char>)
    ensures
        quoted_list(seq![s]) == "["@ + quoted(s) + "]"@,
        a.len() > 0 ==> joined(all_quoted(a.push(s)), ", "@) == joined(all_quoted(a), ", "@) + ", "@
            + quoted(s),
        quoted_list(a) == "["@ + joined(all_quoted(a), ", "@) + "]"@,
        all_quoted(a).len() == a.len(),
{
    assert(all_quoted(seq![s]) =~= seq![quoted(s)]);
    if a.len() > 0 {
        let q = all_quoted(a.push(s));
        assert(q.drop_last() =~= all_quoted(a));
        assert(q.last() == quoted(s));
    }
}

/// A text begins with another exactly where it is that other with something behind it, and what
/// stands behind it is what is left.
pub proof fn law_beginning_and_rest_are_the_text(p: Seq<char>, rest: Seq<char>, s: Seq<char>)
    ensures
        has_prefix(p + rest, p),
        after_prefix(p + rest, p) == rest,
        has_prefix(s, p) ==> s == p + after_prefix(s, p),
{
    let n = p.len() as int;
    assert((p + rest).take(n) =~= p);
    assert((p + rest).skip(n) =~= rest);
    if has_prefix(s, p) {
        assert(s =~= s.take(n) + s.skip(n));
    }
}

/// Zeros in front of a number do not count.
pub proof fn law_leading_zeros_do_not_count(s: Seq<char>)
    requires
        parsed_u64(s) is Some,
        s[0] != '+',
    ensures
        parsed_u64(seq!['0'] + s) == parsed_u64(s),
{
    lemma_zero_in_front(s);
    let z = seq!['0'] + s;
    assert forall|i: int| 0 <= i < z.len() implies is_digit(#[trigger] z[i]) by {
        if i > 0 {
            assert(is_digit(without_plus(s)[i - 1]));
        }
    }
}

proof fn lemma_zero_in_front(s: Seq<char>)
    ensures
        digits_value(seq!['0'] + s) == digits_value(s),
    decreases s.len(),
{
    let z = seq!['0'] + s;
    if s.len() == 0 {
        reveal_with_fuel(digits_value, 2);
        assert(z.drop_last() =~= s);
        assert(z.last() == '0');
    } else {
        lemma_zero_in_front(s.drop_last());
        assert(z.drop_last() =~= seq!['0'] + s.drop_last());
        assert(z.last() == s.last());
    }
}

} // verus!
