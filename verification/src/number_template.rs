//! The numbers inside a CSS value such as `perspective(600px) rotateX(180deg)`.
//!
//! A number is what the pattern
//! `[+\-]?(?:0|[1-9]\d*)(?:\.\d*)?(?:[eE][+\-]?\d+)?` matches, taken leftmost
//! first and without overlap, with every optional part taken greedily. The
//! first digit of a number is one of `0` to `9`; every other `\d` is any
//! Unicode decimal digit (general category Nd).
//! Splitting a value at its numbers gives a template (the text around the
//! numbers) and the numbers themselves; an animation interpolates the numbers
//! and writes them back into the template.
use vstd::prelude::*;

verus! {

/// A digit `0` to `9`.
pub open spec fn is_ascii_digit(c: char) -> bool {
    '0' <= c && c <= '9'
}

/// A decimal digit of any script other than `0` to `9`: a character of the
/// Unicode general category Nd (Unicode 16.0) outside that range.
pub open spec fn is_other_decimal_digit(c: char) -> bool {
    let u = c as u32;
    (0x660 <= u && u <= 0x669)
        || (0x6f0 <= u && u <= 0x6f9)
        || (0x7c0 <= u && u <= 0x7c9)
        || (0x966 <= u && u <= 0x96f)
        || (0x9e6 <= u && u <= 0x9ef)
        || (0xa66 <= u && u <= 0xa6f)
        || (0xae6 <= u && u <= 0xaef)
        || (0xb66 <= u && u <= 0xb6f)
        || (0xbe6 <= u && u <= 0xbef)
        || (0xc66 <= u && u <= 0xc6f)
        || (0xce6 <= u && u <= 0xcef)
        || (0xd66 <= u && u <= 0xd6f)
        || (0xde6 <= u && u <= 0xdef)
        || (0xe50 <= u && u <= 0xe59)
        || (0xed0 <= u && u <= 0xed9)
        || (0xf20 <= u && u <= 0xf29)
        || (0x1040 <= u && u <= 0x1049)
        || (0x1090 <= u && u <= 0x1099)
        || (0x17e0 <= u && u <= 0x17e9)
        || (0x1810 <= u && u <= 0x1819)
        || (0x1946 <= u && u <= 0x194f)
        || (0x19d0 <= u && u <= 0x19d9)
        || (0x1a80 <= u && u <= 0x1a89)
        || (0x1a90 <= u && u <= 0x1a99)
        || (0x1b50 <= u && u <= 0x1b59)
        || (0x1bb0 <= u && u <= 0x1bb9)
        || (0x1c40 <= u && u <= 0x1c49)
        || (0x1c50 <= u && u <= 0x1c59)
        || (0xa620 <= u && u <= 0xa629)
        || (0xa8d0 <= u && u <= 0xa8d9)
        || (0xa900 <= u && u <= 0xa909)
        || (0xa9d0 <= u && u <= 0xa9d9)
        || (0xa9f0 <= u && u <= 0xa9f9)
        || (0xaa50 <= u && u <= 0xaa59)
        || (0xabf0 <= u && u <= 0xabf9)
        || (0xff10 <= u && u <= 0xff19)
        || (0x104a0 <= u && u <= 0x104a9)
        || (0x10d30 <= u && u <= 0x10d39)
        || (0x10d40 <= u && u <= 0x10d49)
        || (0x11066 <= u && u <= 0x1106f)
        || (0x110f0 <= u && u <= 0x110f9)
        || (0x11136 <= u && u <= 0x1113f)
        || (0x111d0 <= u && u <= 0x111d9)
        || (0x112f0 <= u && u <= 0x112f9)
        || (0x11450 <= u && u <= 0x11459)
        || (0x114d0 <= u && u <= 0x114d9)
        || (0x11650 <= u && u <= 0x11659)
        || (0x116c0 <= u && u <= 0x116c9)
        || (0x116d0 <= u && u <= 0x116e3)
        || (0x11730 <= u && u <= 0x11739)
        || (0x118e0 <= u && u <= 0x118e9)
        || (0x11950 <= u && u <= 0x11959)
        || (0x11bf0 <= u && u <= 0x11bf9)
        || (0x11c50 <= u && u <= 0x11c59)
        || (0x11d50 <= u && u <= 0x11d59)
        || (0x11da0 <= u && u <= 0x11da9)
        || (0x11f50 <= u && u <= 0x11f59)
        || (0x16130 <= u && u <= 0x16139)
        || (0x16a60 <= u && u <= 0x16a69)
        || (0x16ac0 <= u && u <= 0x16ac9)
        || (0x16b50 <= u && u <= 0x16b59)
        || (0x16d70 <= u && u <= 0x16d79)
        || (0x1ccf0 <= u && u <= 0x1ccf9)
        || (0x1d7ce <= u && u <= 0x1d7ff)
        || (0x1e140 <= u && u <= 0x1e149)
        || (0x1e2f0 <= u && u <= 0x1e2f9)
        || (0x1e4f0 <= u && u <= 0x1e4f9)
        || (0x1e5f1 <= u && u <= 0x1e5fa)
        || (0x1e950 <= u && u <= 0x1e959)
        || (0x1fbf0 <= u && u <= 0x1fbf9)
}

/// A decimal digit: `0` to `9`, or a decimal digit of another script.
pub open spec fn is_digit(c: char) -> bool {
    is_ascii_digit(c) || is_other_decimal_digit(c)
}

/// A sign `+` or `-`.
pub open spec fn is_sign(c: char) -> bool {
    c == '+' || c == '-'
}

/// The mark `e` or `E` of an exponent.
pub open spec fn is_exp_mark(c: char) -> bool {
    c == 'e' || c == 'E'
}

/// How many digits stand in `s` from position `i` on, before the first
/// character that is not a digit.
pub open spec fn digits_len(s: Seq<char>, i: int) -> nat
    decreases s.len() - i,
{
    if 0 <= i < s.len() && is_digit(s[i]) {
        1 + digits_len(s, i + 1)
    } else {
        0
    }
}

/// Whether a number starts at position `i` of `s`: a digit `0` to `9` there,
/// or a sign followed by one.
pub open spec fn number_starts_at(s: Seq<char>, i: int) -> bool {
    0 <= i < s.len() && (is_ascii_digit(s[i]) || (is_sign(s[i]) && i + 1 < s.len() && is_ascii_digit(s[i + 1])))
}

/// The length of the sign of a number that starts at `i`.
pub open spec fn sign_len(s: Seq<char>, i: int) -> nat {
    if is_sign(s[i]) { 1 } else { 0 }
}

/// The length of the integer part at `j`: a lone `0`, or a run of digits.
pub open spec fn int_len(s: Seq<char>, j: int) -> nat {
    if s[j] == '0' { 1 } else { digits_len(s, j) }
}

/// The length of the fraction at `k`: a `.` and the digits after it, or nothing.
pub open spec fn frac_len(s: Seq<char>, k: int) -> nat {
    if 0 <= k < s.len() && s[k] == '.' { 1 + digits_len(s, k + 1) } else { 0 }
}

/// The length of the exponent at `m`: `e` or `E`, an optional sign and at
/// least one digit; nothing where that does not stand there.
pub open spec fn exp_len(s: Seq<char>, m: int) -> nat {
    if 0 <= m < s.len() && is_exp_mark(s[m]) {
        let sl: int = if m + 1 < s.len() && is_sign(s[m + 1]) { 1 } else { 0 };
        let d = digits_len(s, m + 1 + sl);
        if d > 0 { (1 + sl + d) as nat } else { 0 }
    } else {
        0
    }
}

/// The length of the number that starts at position `i` of `s`, or 0 where
/// none does.
pub open spec fn number_len_at(s: Seq<char>, i: int) -> nat {
    if number_starts_at(s, i) {
        let j = i + sign_len(s, i);
        let k = j + int_len(s, j);
        let m = k + frac_len(s, k);
        (m + exp_len(s, m) - i) as nat
    } else {
        0
    }
}

/// A run of digits ends inside `s`.
pub proof fn lemma_digits_len_bounds(s: Seq<char>, j: int)
    requires
        0 <= j <= s.len(),
    ensures
        j + digits_len(s, j) <= s.len(),
        j < s.len() && is_digit(s[j]) ==> digits_len(s, j) >= 1,
    decreases s.len() - j,
{
    if j < s.len() && is_digit(s[j]) {
        lemma_digits_len_bounds(s, j + 1);
    }
}

/// A number that starts at `i` is not empty and ends inside `s`.
pub proof fn lemma_number_len_bounds(s: Seq<char>, i: int)
    ensures
        number_starts_at(s, i) <==> number_len_at(s, i) > 0,
        number_starts_at(s, i) ==> i + number_len_at(s, i) <= s.len(),
{
    if number_starts_at(s, i) {
        let j = i + sign_len(s, i);
        lemma_digits_len_bounds(s, j);
        let k = j + int_len(s, j);
        if 0 <= k < s.len() {
            lemma_digits_len_bounds(s, k + 1);
        }
        let m = k + frac_len(s, k);
        if 0 <= m < s.len() && is_exp_mark(s[m]) {
            let sl: int = if m + 1 < s.len() && is_sign(s[m + 1]) { 1 } else { 0 };
            lemma_digits_len_bounds(s, m + 1 + sl);
        }
    }
}

/// The spans `(start, end)` of the numbers of `s` found from position `i` on:
/// the first position where a number starts, that number, and then the search
/// goes on after its end.
pub open spec fn spans_from(s: Seq<char>, i: int) -> Seq<(int, int)>
    decreases s.len() - i,
{
    if i < 0 || i >= s.len() {
        Seq::empty()
    } else if number_len_at(s, i) > 0 {
        proof {
            lemma_number_len_bounds(s, i);
        }
        seq![(i, i + number_len_at(s, i))].add(spans_from(s, i + number_len_at(s, i)))
    } else {
        spans_from(s, i + 1)
    }
}

/// Spans that lie inside `s` from `lo` on, are not empty, and come in order
/// without overlap.
pub open spec fn spans_well_formed(s: Seq<char>, spans: Seq<(int, int)>, lo: int) -> bool {
    &&& forall|k: int| 0 <= k < spans.len() ==> lo <= #[trigger] spans[k].0 < spans[k].1 <= s.len()
    &&& forall|k: int, l: int| 0 <= k < l < spans.len() ==> #[trigger] spans[k].1 <= #[trigger] spans[l].0
}

/// The spans found from `i` on are well formed, each is a number, and no
/// number starts in a gap between them.
pub proof fn lemma_spans_from_well_formed(s: Seq<char>, i: int)
    requires
        0 <= i <= s.len(),
    ensures
        spans_well_formed(s, spans_from(s, i), i),
        forall|k: int|
            0 <= k < spans_from(s, i).len() ==> #[trigger] spans_from(s, i)[k].1 - spans_from(s, i)[k].0
                == number_len_at(s, spans_from(s, i)[k].0),
    decreases s.len() - i,
{
    if i < s.len() {
        lemma_number_len_bounds(s, i);
        if number_len_at(s, i) > 0 {
            lemma_spans_from_well_formed(s, i + number_len_at(s, i));
        } else {
            lemma_spans_from_well_formed(s, i + 1);
        }
    }
}

/// The spans of all the numbers of `s`.
pub open spec fn number_spans(s: Seq<char>) -> Seq<(int, int)> {
    spans_from(s, 0)
}

/// The texts of the given spans of `s`.
pub open spec fn span_texts(s: Seq<char>, spans: Seq<(int, int)>) -> Seq<Seq<char>> {
    spans.map_values(|sp: (int, int)| s.subrange(sp.0, sp.1))
}

/// The texts between the given spans of `s`: before the first, between each
/// two, and after the last up to `end`.
pub open spec fn gap_texts(s: Seq<char>, spans: Seq<(int, int)>, end: int) -> Seq<Seq<char>> {
    Seq::new(
        spans.len() + 1,
        |k: int|
            s.subrange(
                if k == 0 { 0 } else { spans[k - 1].1 },
                if k == spans.len() { end } else { spans[k].0 },
            ),
    )
}

/// The numbers of `s`, in order.
pub open spec fn numbers_of(s: Seq<char>) -> Seq<Seq<char>> {
    span_texts(s, number_spans(s))
}

/// The template of `s`: the texts around its numbers, one more than there are
/// numbers.
pub open spec fn template_of(s: Seq<char>) -> Seq<Seq<char>> {
    gap_texts(s, number_spans(s), s.len() as int)
}

/// The pieces and the fillers laid end to end: first piece, first filler,
/// second piece, and so on, ending with the last piece.
pub open spec fn interleave(pieces: Seq<Seq<char>>, fillers: Seq<Seq<char>>) -> Seq<char>
    decreases fillers.len(),
{
    if fillers.len() == 0 {
        if pieces.len() > 0 { pieces[0] } else { Seq::empty() }
    } else {
        interleave(pieces.drop_last(), fillers.drop_last()) + fillers.last() + pieces.last()
    }
}

/// The filler that stands for the `k`-th number when a value is rebuilt from
/// `replacements`: the `k`-th replacement, or a single space where there are
/// too few.
pub open spec fn filler(replacements: Seq<Seq<char>>, k: int) -> Seq<char> {
    if 0 <= k < replacements.len() { replacements[k] } else { seq![' '] }
}

/// `s` with its `k`-th number replaced by `filler(replacements, k)`.
pub open spec fn replaced(s: Seq<char>, replacements: Seq<Seq<char>>) -> Seq<char> {
    interleave(template_of(s), fillers_for(s, replacements))
}

/// The characters of `text`, in order.
pub fn chars_of(text: &str) -> (v: Vec<char>)
    ensures
        v@ == text@,
{
    let mut v: Vec<char> = Vec::new();
    for c in it: text.chars()
        invariant
            v@ == it.seq().take(it.index() as int),
    {
        v.push(c);
    }
    v
}

/// The spans of a `Vec` of index pairs, as integers.
pub open spec fn spans_view(v: Seq<(usize, usize)>) -> Seq<(int, int)> {
    v.map_values(|p: (usize, usize)| (p.0 as int, p.1 as int))
}

/// The views of a sequence of strings.
pub open spec fn strings_view(v: Seq<String>) -> Seq<Seq<char>> {
    v.map_values(|x: String| x@)
}

/// The length of the number that starts at position `i`, or 0 where none does.
fn number_len(s: &Vec<char>, i: usize) -> (r: usize)
    requires
        i < s@.len(),
    ensures
        r == number_len_at(s@, i as int),
{
    proof {
        lemma_number_len_bounds(s@, i as int);
    }
    let n = s.len();
    let c = s[i];
    let signed = c == '+' || c == '-';
    let starts = ('0' <= c && c <= '9') || (signed && i + 1 < n && '0' <= s[i + 1] && s[i + 1] <= '9');
    if !starts {
        return 0;
    }
    let j = if signed { i + 1 } else { i };
    let k = if s[j] == '0' { j + 1 } else { j + digits_run(s, j) };
    proof {
        lemma_digits_len_bounds(s@, j as int);
    }
    let m = if k < n && s[k] == '.' { k + 1 + digits_run(s, k + 1) } else { k };
    let e = if m < n && (s[m] == 'e' || s[m] == 'E') {
        let q = if m + 1 < n && (s[m + 1] == '+' || s[m + 1] == '-') { m + 2 } else { m + 1 };
        let d = digits_run(s, q);
        if d > 0 { q + d } else { m }
    } else {
        m
    };
    e - i
}

/// The spans of the numbers of `s`, in order.
fn find_number_spans(s: &Vec<char>) -> (r: Vec<(usize, usize)>)
    ensures
        spans_view(r@) == number_spans(s@),
{
    let mut r: Vec<(usize, usize)> = Vec::new();
    let mut i: usize = 0;
    while i < s.len()
        invariant
            i <= s@.len(),
            spans_view(r@) + spans_from(s@, i as int) == spans_from(s@, 0),
        decreases s@.len() - i,
    {
        let l = number_len(s, i);
        proof {
            lemma_number_len_bounds(s@, i as int);
        }
        if l > 0 {
            let ghost old_r = r@;
            r.push((i, i + l));
            assert(spans_view(r@) == spans_view(old_r).push((i as int, (i + l) as int)));
            assert(spans_view(r@) + spans_from(s@, (i + l) as int) == spans_view(old_r) + spans_from(s@, i as int));
            i = i + l;
        } else {
            i = i + 1;
        }
    }
    assert(spans_from(s@, i as int) == Seq::<(int, int)>::empty());
    assert(spans_view(r@) + Seq::<(int, int)>::empty() == spans_view(r@));
    r
}

/// The numbers of `text`, in order, as the text that stands for each.
pub fn number_texts(text: &str) -> (r: Vec<String>)
    ensures
        strings_view(r@) == numbers_of(text@),
{
    let cs = chars_of(text);
    let spans = find_number_spans(&cs);
    let ghost sp = number_spans(text@);
    proof {
        lemma_spans_from_well_formed(text@, 0);
    }
    let mut out: Vec<String> = Vec::new();
    for k in 0..spans.len()
        invariant
            spans_view(spans@) == sp,
            sp == number_spans(text@),
            spans_well_formed(text@, sp, 0),
            strings_view(out@) == numbers_of(text@).take(k as int),
    {
        let (a, b) = spans[k];
        assert(sp[k as int] == (a as int, b as int));
        let piece = text.substring_char(a, b).to_owned();
        let ghost before = out@;
        out.push(piece);
        assert(strings_view(out@) == strings_view(before).push(piece@));
        assert(numbers_of(text@).take(k + 1) == numbers_of(text@).take(k as int).push(
            numbers_of(text@)[k as int],
        ));
    }
    assert(numbers_of(text@).take(spans@.len() as int) == numbers_of(text@));
    out
}

/// The start and the end of the `k`-th gap of `s` around the given spans.
proof fn lemma_gap_bounds(s: Seq<char>, sp: Seq<(int, int)>, k: int)
    requires
        spans_well_formed(s, sp, 0),
        0 <= k <= sp.len(),
    ensures
        0 <= (if k == 0 { 0 } else { sp[k - 1].1 }) <= (if k == sp.len() { s.len() as int } else {
            sp[k].0
        }) <= s.len(),
{
    if 0 < k < sp.len() {
        assert(sp[k - 1].1 <= sp[k].0);
    }
    if k > 0 {
        assert(sp[k - 1].0 < sp[k - 1].1);
    }
    if k < sp.len() {
        assert(sp[k].0 < sp[k].1);
    }
}

/// The text of the `k`-th gap of `text` around the numbers whose spans are
/// given.
fn gap_text(text: &str, len: usize, spans: &Vec<(usize, usize)>, k: usize) -> (r: String)
    requires
        len == text@.len(),
        spans_view(spans@) == number_spans(text@),
        spans_well_formed(text@, number_spans(text@), 0),
        k <= spans@.len(),
    ensures
        r@ == template_of(text@)[k as int],
{
    let ghost sp = number_spans(text@);
    proof {
        lemma_gap_bounds(text@, sp, k as int);
    }
    let from = if k == 0 { 0 } else { spans[k - 1].1 };
    let to = if k == spans.len() { len } else { spans[k].0 };
    if k > 0 {
        assert(sp[k - 1] == (spans@[k - 1].0 as int, spans@[k - 1].1 as int));
    }
    if k < spans.len() {
        assert(sp[k as int] == (spans@[k as int].0 as int, spans@[k as int].1 as int));
    }
    text.substring_char(from, to).to_owned()
}

/// The template of `text`: the texts around its numbers, in order, one more
/// than there are numbers.
pub fn template_texts(text: &str) -> (r: Vec<String>)
    ensures
        strings_view(r@) == template_of(text@),
        r@.len() == numbers_of(text@).len() + 1,
{
    let cs = chars_of(text);
    let len = cs.len();
    let spans = find_number_spans(&cs);
    proof {
        lemma_spans_from_well_formed(text@, 0);
    }
    let mut out: Vec<String> = Vec::new();
    for k in 0..spans.len()
        invariant
            len == text@.len(),
            spans_view(spans@) == number_spans(text@),
            spans_well_formed(text@, number_spans(text@), 0),
            strings_view(out@) == template_of(text@).take(k as int),
    {
        let piece = gap_text(text, len, &spans, k);
        let ghost before = out@;
        out.push(piece);
        assert(strings_view(out@) == strings_view(before).push(piece@));
        assert(template_of(text@).take(k + 1) == template_of(text@).take(k as int).push(
            template_of(text@)[k as int],
        ));
    }
    let k = spans.len();
    let piece = gap_text(text, len, &spans, k);
    let ghost before = out@;
    out.push(piece);
    assert(strings_view(out@) == strings_view(before).push(piece@));
    assert(template_of(text@).take(k + 1) == template_of(text@).take(k as int).push(
        template_of(text@)[k as int],
    ));
    assert(template_of(text@).take(k + 1) == template_of(text@));
    out
}

/// The fillers for the numbers of `s` taken from `replacements`.
pub open spec fn fillers_for(s: Seq<char>, replacements: Seq<Seq<char>>) -> Seq<Seq<char>> {
    Seq::new(number_spans(s).len(), |k: int| filler(replacements, k))
}

/// `text` with its `k`-th number replaced by the `k`-th replacement, or by a
/// single space where there are fewer replacements than numbers.
pub fn replace_numbers(text: &str, replacements: &Vec<String>) -> (r: String)
    ensures
        r@ == replaced(text@, strings_view(replacements@)),
{
    let cs = chars_of(text);
    let len = cs.len();
    let spans = find_number_spans(&cs);
    proof {
        lemma_spans_from_well_formed(text@, 0);
    }
    let ghost t = template_of(text@);
    let ghost f = fillers_for(text@, strings_view(replacements@));
    let mut res = gap_text(text, len, &spans, 0);
    assert(t.take(1).len() == 1);
    assert(interleave(t.take(1), f.take(0)) == t[0]);
    for k in 0..spans.len()
        invariant
            len == text@.len(),
            spans_view(spans@) == number_spans(text@),
            spans_well_formed(text@, number_spans(text@), 0),
            t == template_of(text@),
            f == fillers_for(text@, strings_view(replacements@)),
            res@ == interleave(t.take(k + 1), f.take(k as int)),
    {
        let ghost before = res@;
        if k < replacements.len() {
            res.append(replacements[k].as_str());
        } else {
            let space = " ";
            proof {
                reveal_strlit(" ");
            }
            res.append(space);
        }
        let piece = gap_text(text, len, &spans, k + 1);
        res.append(piece.as_str());
        assert(t.take(k + 2).drop_last() == t.take(k + 1));
        assert(f.take(k + 1).drop_last() == f.take(k as int));
        assert(res@ == before + f.take(k + 1).last() + t.take(k + 2).last());
    }
    assert(t.take(spans@.len() + 1 as int) == t);
    assert(f.take(spans@.len() as int) == f);
    res
}

/// Whether `c` is a decimal digit.
fn decimal_digit(c: char) -> (r: bool)
    ensures
        r == is_digit(c),
{
    if '0' <= c && c <= '9' {
        return true;
    }
    let u = c as u32;
    (0x660 <= u && u <= 0x669)
        || (0x6f0 <= u && u <= 0x6f9)
        || (0x7c0 <= u && u <= 0x7c9)
        || (0x966 <= u && u <= 0x96f)
        || (0x9e6 <= u && u <= 0x9ef)
        || (0xa66 <= u && u <= 0xa6f)
        || (0xae6 <= u && u <= 0xaef)
        || (0xb66 <= u && u <= 0xb6f)
        || (0xbe6 <= u && u <= 0xbef)
        || (0xc66 <= u && u <= 0xc6f)
        || (0xce6 <= u && u <= 0xcef)
        || (0xd66 <= u && u <= 0xd6f)
        || (0xde6 <= u && u <= 0xdef)
        || (0xe50 <= u && u <= 0xe59)
        || (0xed0 <= u && u <= 0xed9)
        || (0xf20 <= u && u <= 0xf29)
        || (0x1040 <= u && u <= 0x1049)
        || (0x1090 <= u && u <= 0x1099)
        || (0x17e0 <= u && u <= 0x17e9)
        || (0x1810 <= u && u <= 0x1819)
        || (0x1946 <= u && u <= 0x194f)
        || (0x19d0 <= u && u <= 0x19d9)
        || (0x1a80 <= u && u <= 0x1a89)
        || (0x1a90 <= u && u <= 0x1a99)
        || (0x1b50 <= u && u <= 0x1b59)
        || (0x1bb0 <= u && u <= 0x1bb9)
        || (0x1c40 <= u && u <= 0x1c49)
        || (0x1c50 <= u && u <= 0x1c59)
        || (0xa620 <= u && u <= 0xa629)
        || (0xa8d0 <= u && u <= 0xa8d9)
        || (0xa900 <= u && u <= 0xa909)
        || (0xa9d0 <= u && u <= 0xa9d9)
        || (0xa9f0 <= u && u <= 0xa9f9)
        || (0xaa50 <= u && u <= 0xaa59)
        || (0xabf0 <= u && u <= 0xabf9)
        || (0xff10 <= u && u <= 0xff19)
        || (0x104a0 <= u && u <= 0x104a9)
        || (0x10d30 <= u && u <= 0x10d39)
        || (0x10d40 <= u && u <= 0x10d49)
        || (0x11066 <= u && u <= 0x1106f)
        || (0x110f0 <= u && u <= 0x110f9)
        || (0x11136 <= u && u <= 0x1113f)
        || (0x111d0 <= u && u <= 0x111d9)
        || (0x112f0 <= u && u <= 0x112f9)
        || (0x11450 <= u && u <= 0x11459)
        || (0x114d0 <= u && u <= 0x114d9)
        || (0x11650 <= u && u <= 0x11659)
        || (0x116c0 <= u && u <= 0x116c9)
        || (0x116d0 <= u && u <= 0x116e3)
        || (0x11730 <= u && u <= 0x11739)
        || (0x118e0 <= u && u <= 0x118e9)
        || (0x11950 <= u && u <= 0x11959)
        || (0x11bf0 <= u && u <= 0x11bf9)
        || (0x11c50 <= u && u <= 0x11c59)
        || (0x11d50 <= u && u <= 0x11d59)
        || (0x11da0 <= u && u <= 0x11da9)
        || (0x11f50 <= u && u <= 0x11f59)
        || (0x16130 <= u && u <= 0x16139)
        || (0x16a60 <= u && u <= 0x16a69)
        || (0x16ac0 <= u && u <= 0x16ac9)
        || (0x16b50 <= u && u <= 0x16b59)
        || (0x16d70 <= u && u <= 0x16d79)
        || (0x1ccf0 <= u && u <= 0x1ccf9)
        || (0x1d7ce <= u && u <= 0x1d7ff)
        || (0x1e140 <= u && u <= 0x1e149)
        || (0x1e2f0 <= u && u <= 0x1e2f9)
        || (0x1e4f0 <= u && u <= 0x1e4f9)
        || (0x1e5f1 <= u && u <= 0x1e5fa)
        || (0x1e950 <= u && u <= 0x1e959)
        || (0x1fbf0 <= u && u <= 0x1fbf9)
}

/// The number of digits from position `i` on.
fn digits_run(s: &Vec<char>, i: usize) -> (r: usize)
    requires
        i <= s@.len(),
    ensures
        r == digits_len(s@, i as int),
        i + r <= s@.len(),
{
    let mut j = i;
    while j < s.len() && decimal_digit(s[j])
        invariant
            i <= j <= s@.len(),
            digits_len(s@, i as int) == (j - i) + digits_len(s@, j as int),
        decreases s@.len() - j,
    {
        j = j + 1;
    }
    j - i
}

} // verus!

verus! {

/// The start of the `k`-th gap around `spans`, which begin at or after `lo`.
pub open spec fn gap_start(spans: Seq<(int, int)>, k: int, lo: int) -> int {
    if k == 0 { lo } else { spans[k - 1].1 }
}

/// The end of the `k`-th gap around `spans`, the last one ending at `hi`.
pub open spec fn gap_end(spans: Seq<(int, int)>, k: int, hi: int) -> int {
    if k == spans.len() { hi } else { spans[k].0 }
}

/// The gaps around well-formed spans, ending at `e`, and the spans' texts
/// laid end to end give `s` up to `e`.
proof fn lemma_interleave_gaps(s: Seq<char>, spans: Seq<(int, int)>, e: int)
    requires
        0 <= e <= s.len(),
        spans_well_formed(s, spans, 0),
        forall|k: int| 0 <= k < spans.len() ==> #[trigger] spans[k].1 <= e,
    ensures
        interleave(gap_texts(s, spans, e), span_texts(s, spans)) == s.subrange(0, e),
    decreases spans.len(),
{
    if spans.len() == 0 {
        assert(gap_texts(s, spans, e)[0] == s.subrange(0, e));
    } else {
        let n = spans.len();
        let last = spans.last();
        let rest = spans.drop_last();
        assert(spans[n - 1] == last);
        assert forall|k: int| 0 <= k < rest.len() implies #[trigger] rest[k].1 <= last.0 by {
            assert(rest[k] == spans[k]);
            assert(spans[k].1 <= spans[n - 1].0);
        }
        assert(spans_well_formed(s, rest, 0)) by {
            assert forall|k: int, l: int| 0 <= k < l < rest.len() implies #[trigger] rest[k].1
                <= #[trigger] rest[l].0 by {
                assert(rest[k] == spans[k] && rest[l] == spans[l]);
            }
            assert forall|k: int| 0 <= k < rest.len() implies 0 <= #[trigger] rest[k].0 < rest[k].1
                <= s.len() by {
                assert(rest[k] == spans[k]);
            }
        }
        assert(0 <= last.0 < last.1 <= e);
        lemma_interleave_gaps(s, rest, last.0);
        assert(gap_texts(s, spans, e).drop_last() == gap_texts(s, rest, last.0));
        assert(span_texts(s, spans).drop_last() == span_texts(s, rest));
        assert(span_texts(s, spans).last() == s.subrange(last.0, last.1));
        assert(gap_texts(s, spans, e).last() == s.subrange(last.1, e));
        assert(s.subrange(0, last.0) + s.subrange(last.0, last.1) + s.subrange(last.1, e) == s.subrange(
            0,
            e,
        ));
    }
}

/// Law: the template and the numbers of a value, laid end to end, give back
/// the value, and there is one more template piece than there are numbers.
pub proof fn law_template_and_numbers_rebuild(s: Seq<char>)
    ensures
        template_of(s).len() == numbers_of(s).len() + 1,
        interleave(template_of(s), numbers_of(s)) == s,
{
    lemma_spans_from_well_formed(s, 0);
    lemma_interleave_gaps(s, number_spans(s), s.len() as int);
    assert(s.subrange(0, s.len() as int) == s);
}

/// Law: replacing each number of a value by itself gives back the value.
pub proof fn law_replace_with_own_numbers(s: Seq<char>)
    ensures
        replaced(s, numbers_of(s)) == s,
{
    law_template_and_numbers_rebuild(s);
    assert(fillers_for(s, numbers_of(s)) == numbers_of(s));
}

/// Law: replacing the numbers of a value puts the replacements into its
/// template, in order.
pub proof fn law_replace_fills_template(s: Seq<char>, replacements: Seq<Seq<char>>)
    requires
        replacements.len() == numbers_of(s).len(),
    ensures
        replaced(s, replacements) == interleave(template_of(s), replacements),
{
    assert(fillers_for(s, replacements) == replacements);
}

/// No number starts in a gap between the spans found from `i` on.
proof fn lemma_no_start_in_gaps(s: Seq<char>, i: int)
    requires
        0 <= i <= s.len(),
    ensures
        forall|k: int, p: int|
            #![trigger gap_start(spans_from(s, i), k, i), number_starts_at(s, p)]
            0 <= k <= spans_from(s, i).len() && gap_start(spans_from(s, i), k, i) <= p < gap_end(
                spans_from(s, i),
                k,
                s.len() as int,
            ) ==> !number_starts_at(s, p),
    decreases s.len() - i,
{
    let sp = spans_from(s, i);
    if i < s.len() {
        lemma_number_len_bounds(s, i);
        if number_len_at(s, i) > 0 {
            let j = i + number_len_at(s, i);
            lemma_no_start_in_gaps(s, j);
            let rest = spans_from(s, j);
            assert(sp == seq![(i, j)] + rest);
            assert forall|k: int, p: int|
                #![trigger gap_start(sp, k, i), number_starts_at(s, p)]
                0 <= k <= sp.len() && gap_start(sp, k, i) <= p < gap_end(
                    sp,
                    k,
                    s.len() as int,
                ) implies !number_starts_at(s, p) by {
                if k > 0 {
                    assert(gap_start(sp, k, i) == gap_start(rest, k - 1, j));
                    assert(gap_end(sp, k, s.len() as int) == gap_end(rest, k - 1, s.len() as int));
                }
            }
        } else {
            lemma_no_start_in_gaps(s, i + 1);
            let rest = spans_from(s, i + 1);
            assert(sp == rest);
            assert forall|k: int, p: int|
                #![trigger gap_start(sp, k, i), number_starts_at(s, p)]
                0 <= k <= sp.len() && gap_start(sp, k, i) <= p < gap_end(
                    sp,
                    k,
                    s.len() as int,
                ) implies !number_starts_at(s, p) by {
                if k == 0 && p == i {
                } else if k == 0 {
                    assert(gap_start(rest, 0, i + 1) <= p);
                } else {
                    assert(gap_start(sp, k, i) == gap_start(rest, k, i + 1));
                }
            }
        }
    }
}

/// Law: no piece of the template of a value holds a number.
pub proof fn law_template_holds_no_number(s: Seq<char>, k: int, p: int)
    requires
        0 <= k < template_of(s).len(),
    ensures
        number_len_at(template_of(s)[k], p) == 0,
{
    let sp = number_spans(s);
    lemma_spans_from_well_formed(s, 0);
    lemma_no_start_in_gaps(s, 0);
    lemma_gap_bounds(s, sp, k);
    let a = gap_start(sp, k, 0);
    let b = gap_end(sp, k, s.len() as int);
    let piece = template_of(s)[k];
    assert(piece == s.subrange(a, b));
    lemma_number_len_bounds(piece, p);
    if number_starts_at(piece, p) {
        assert(piece[p] == s[a + p]);
        if is_sign(piece[p]) {
            assert(piece[p + 1] == s[a + p + 1]);
        }
        assert(number_starts_at(s, a + p));
    }
}

/// A run of digits that ends inside a window of `s` is the same run in the
/// window.
proof fn lemma_digits_len_in_window(s: Seq<char>, a: int, b: int, j: int)
    requires
        0 <= a <= j <= b <= s.len(),
        j + digits_len(s, j) <= b,
    ensures
        digits_len(s.subrange(a, b), j - a) == digits_len(s, j),
    decreases b - j,
{
    let t = s.subrange(a, b);
    if j < b && is_digit(s[j]) {
        assert(t[j - a] == s[j]);
        lemma_digits_len_in_window(s, a, b, j + 1);
        assert(j + 1 - a == (j - a) + 1);
    } else if j < b {
        assert(t[j - a] == s[j]);
    }
}

/// Law: each number of a value, taken on its own, is one whole number.
pub proof fn law_number_is_whole(s: Seq<char>, k: int)
    requires
        0 <= k < numbers_of(s).len(),
    ensures
        number_len_at(numbers_of(s)[k], 0) == numbers_of(s)[k].len(),
        numbers_of(s)[k].len() > 0,
{
    let sp = number_spans(s);
    lemma_spans_from_well_formed(s, 0);
    let a = sp[k].0;
    let b = sp[k].1;
    let t = s.subrange(a, b);
    assert(numbers_of(s)[k] == t);
    lemma_number_len_bounds(s, a);
    assert(number_len_at(s, a) == b - a);
    let j = a + sign_len(s, a);
    lemma_digits_len_bounds(s, j);
    let k1 = j + int_len(s, j);
    let m = k1 + frac_len(s, k1);
    assert(t[0] == s[a]);
    if b > a + 1 {
        assert(t[1] == s[a + 1]);
    }
    assert(number_starts_at(t, 0));
    assert(sign_len(t, 0) == sign_len(s, a));
    assert(t[j - a] == s[j]);
    if s[j] != '0' {
        lemma_digits_len_in_window(s, a, b, j);
    }
    assert(int_len(t, j - a) == int_len(s, j));
    if 0 <= k1 < s.len() {
        lemma_digits_len_bounds(s, k1 + 1);
    }
    if k1 < b {
        assert(t[k1 - a] == s[k1]);
        if s[k1] == '.' {
            lemma_digits_len_in_window(s, a, b, k1 + 1);
        }
    }
    assert(frac_len(t, k1 - a) == frac_len(s, k1));
    if m < b {
        assert(t[m - a] == s[m]);
        if is_exp_mark(s[m]) {
            let sl: int = if m + 1 < s.len() && is_sign(s[m + 1]) { 1 } else { 0 };
            lemma_digits_len_bounds(s, m + 1 + sl);
            if m + 1 < b {
                assert(t[m + 1 - a] == s[m + 1]);
            }
            let d = digits_len(s, m + 1 + sl);
            if d > 0 {
                lemma_digits_len_in_window(s, a, b, m + 1 + sl);
            } else {
                assert(m + 1 + sl <= s.len());
                if m + 1 + sl < b {
                    assert(t[m + 1 + sl - a] == s[m + 1 + sl]);
                }
            }
        }
    }
    assert(exp_len(t, m - a) == exp_len(s, m));
}

} // verus!

verus! {

/// Every character of `t` is a decimal digit.
pub open spec fn all_digits(t: Seq<char>) -> bool {
    forall|i: int| 0 <= i < t.len() ==> #[trigger] is_digit(t[i])
}

/// `t` is empty or a single sign.
pub open spec fn is_sign_part(t: Seq<char>) -> bool {
    t.len() == 0 || (t.len() == 1 && is_sign(t[0]))
}

/// `t` is an integer part: `0`, or a digit `1` to `9` followed by digits.
pub open spec fn is_int_part(t: Seq<char>) -> bool {
    (t.len() == 1 && t[0] == '0') || (t.len() >= 1 && '1' <= t[0] && t[0] <= '9' && all_digits(t.drop_first()))
}

/// `t` is empty or a `.` followed by digits.
pub open spec fn is_frac_part(t: Seq<char>) -> bool {
    t.len() == 0 || (t[0] == '.' && all_digits(t.drop_first()))
}

/// `t` is empty or an exponent: `e` or `E`, an optional sign, and at least
/// one digit.
pub open spec fn is_exp_part(t: Seq<char>) -> bool {
    t.len() == 0 || (t.len() >= 2 && is_exp_mark(t[0]) && (all_digits(t.drop_first()) || (t.len() >= 3
        && is_sign(t[1]) && all_digits(t.subrange(2, t.len() as int)))))
}

/// `t`, as a whole, is what the number pattern
/// `[+\-]?(?:0|[1-9]\d*)(?:\.\d*)?(?:[eE][+\-]?\d+)?` matches: an optional
/// sign, an integer part, an optional fraction and an optional exponent.
pub open spec fn matches_number(t: Seq<char>) -> bool {
    exists|x: int, y: int, z: int|
        0 <= x <= y <= z <= t.len() && is_sign_part(#[trigger] t.subrange(0, x)) && is_int_part(
            #[trigger] t.subrange(x, y),
        ) && is_frac_part(#[trigger] t.subrange(y, z)) && is_exp_part(t.subrange(z, t.len() as int))
}

/// A digit is none of the other characters a number is made of.
proof fn lemma_digit_is_not_punctuation(c: char)
    ensures
        is_digit(c) ==> c != '.' && !is_sign(c) && !is_exp_mark(c),
{
    if c == '.' || c == '+' || c == '-' || c == 'e' || c == 'E' {
        assert(!is_digit(c)) by {
            assert(c as u32 == 0x2e || c as u32 == 0x2b || c as u32 == 0x2d || c as u32 == 0x65 || c as u32 == 0x45);
        }
    }
}

/// The characters of a run of digits, and the one that ends it.
proof fn lemma_digits_run(s: Seq<char>, j: int)
    requires
        0 <= j <= s.len(),
    ensures
        forall|q: int| j <= q < j + digits_len(s, j) ==> #[trigger] is_digit(s[q]),
        j + digits_len(s, j) < s.len() ==> !is_digit(s[j + digits_len(s, j)]),
        j + digits_len(s, j) <= s.len(),
    decreases s.len() - j,
{
    lemma_digits_len_bounds(s, j);
    if j < s.len() && is_digit(s[j]) {
        lemma_digits_run(s, j + 1);
    }
}

/// A stretch of digits from `j` is no longer than the run of digits there.
proof fn lemma_digits_stretch(s: Seq<char>, j: int, m: int)
    requires
        0 <= j,
        0 <= m,
        j + m <= s.len(),
        forall|q: int| j <= q < j + m ==> #[trigger] is_digit(s[q]),
    ensures
        m <= digits_len(s, j),
    decreases m,
{
    if m > 0 {
        assert(is_digit(s[j]));
        lemma_digits_stretch(s, j + 1, m - 1);
    }
}

} // verus!

verus! {

/// The number that starts at `a` matches the number pattern as a whole.
proof fn lemma_number_matches(s: Seq<char>, a: int)
    requires
        number_starts_at(s, a),
    ensures
        matches_number(s.subrange(a, a + number_len_at(s, a))),
{
    lemma_number_len_bounds(s, a);
    let len = number_len_at(s, a) as int;
    let t = s.subrange(a, a + len);
    let x = sign_len(s, a) as int;
    let j = a + x;
    lemma_digits_run(s, j);
    let y = x + int_len(s, j) as int;
    let k = a + y;
    if 0 <= k < s.len() && s[k] == '.' {
        lemma_digits_run(s, k + 1);
    }
    let z = y + frac_len(s, k) as int;
    let m = a + z;
    assert(t.len() == len);
    // sign
    assert(is_sign_part(t.subrange(0, x))) by {
        if x == 1 {
            assert(t.subrange(0, x)[0] == s[a]);
        }
    }
    // integer part
    assert(is_int_part(t.subrange(x, y))) by {
        let ip = t.subrange(x, y);
        assert(ip[0] == s[j]);
        if s[j] != '0' {
            assert forall|i: int| 0 <= i < ip.drop_first().len() implies #[trigger] is_digit(ip.drop_first()[i]) by {
                assert(ip.drop_first()[i] == s[j + 1 + i]);
            }
        }
    }
    // fraction
    assert(is_frac_part(t.subrange(y, z))) by {
        let fp = t.subrange(y, z);
        if z > y {
            assert(fp[0] == s[k]);
            assert forall|i: int| 0 <= i < fp.drop_first().len() implies #[trigger] is_digit(fp.drop_first()[i]) by {
                assert(fp.drop_first()[i] == s[k + 1 + i]);
            }
        }
    }
    // exponent
    assert(is_exp_part(t.subrange(z, len))) by {
        let ep = t.subrange(z, len);
        if len > z {
            assert(0 <= m < s.len() && is_exp_mark(s[m]));
            let sl: int = if m + 1 < s.len() && is_sign(s[m + 1]) { 1 } else { 0 };
            lemma_digits_run(s, m + 1 + sl);
            assert(ep[0] == s[m]);
            if sl == 1 {
                assert(ep[1] == s[m + 1]);
                assert forall|i: int| 0 <= i < ep.subrange(2, ep.len() as int).len() implies #[trigger] is_digit(
                    ep.subrange(2, ep.len() as int)[i],
                ) by {
                    assert(ep.subrange(2, ep.len() as int)[i] == s[m + 2 + i]);
                }
            } else {
                assert forall|i: int| 0 <= i < ep.drop_first().len() implies #[trigger] is_digit(ep.drop_first()[i]) by {
                    assert(ep.drop_first()[i] == s[m + 1 + i]);
                }
            }
        }
    }
    assert(0 <= x <= y <= z <= t.len());
}

/// Law: every number found in a value matches the number pattern as a whole:
/// an optional sign, an integer part, an optional fraction and an optional
/// exponent, and nothing else.
pub proof fn law_numbers_match_the_pattern(s: Seq<char>, k: int)
    requires
        0 <= k < numbers_of(s).len(),
    ensures
        matches_number(numbers_of(s)[k]),
        forall|i: int|
            0 <= i < numbers_of(s)[k].len() ==> is_digit(#[trigger] numbers_of(s)[k][i]) || is_sign(
                numbers_of(s)[k][i],
            ) || numbers_of(s)[k][i] == '.' || is_exp_mark(numbers_of(s)[k][i]),
{
    let sp = number_spans(s);
    lemma_spans_from_well_formed(s, 0);
    let a = sp[k].0;
    lemma_number_len_bounds(s, a);
    assert(numbers_of(s)[k] == s.subrange(a, a + number_len_at(s, a)));
    lemma_number_matches(s, a);
    lemma_match_chars(numbers_of(s)[k]);
}

/// The characters of a match of the number pattern.
proof fn lemma_match_chars(t: Seq<char>)
    requires
        matches_number(t),
    ensures
        forall|i: int|
            0 <= i < t.len() ==> is_digit(#[trigger] t[i]) || is_sign(t[i]) || t[i] == '.' || is_exp_mark(t[i]),
{
    let (x, y, z) = choose|x: int, y: int, z: int|
        0 <= x <= y <= z <= t.len() && is_sign_part(#[trigger] t.subrange(0, x)) && is_int_part(
            #[trigger] t.subrange(x, y),
        ) && is_frac_part(#[trigger] t.subrange(y, z)) && is_exp_part(t.subrange(z, t.len() as int));
    assert forall|i: int| 0 <= i < t.len() implies is_digit(#[trigger] t[i]) || is_sign(t[i]) || t[i] == '.'
        || is_exp_mark(t[i]) by {
        if i < x {
            assert(t.subrange(0, x)[i] == t[i]);
        } else if i < y {
            let ip = t.subrange(x, y);
            assert(ip[i - x] == t[i]);
            if i > x {
                assert(ip.drop_first()[i - x - 1] == t[i]);
            }
        } else if i < z {
            let fp = t.subrange(y, z);
            assert(fp[i - y] == t[i]);
            if i > y {
                assert(fp.drop_first()[i - y - 1] == t[i]);
            }
        } else {
            let ep = t.subrange(z, t.len() as int);
            assert(ep[i - z] == t[i]);
            if i > z {
                if all_digits(ep.drop_first()) {
                    assert(ep.drop_first()[i - z - 1] == t[i]);
                } else if i > z + 1 {
                    assert(ep.subrange(2, ep.len() as int)[i - z - 2] == t[i]);
                }
            }
        }
    }
}

} // verus!

verus! {

/// Any match of the number pattern that starts at `a` starts a number there
/// and is no longer than it.
proof fn lemma_match_bounded(s: Seq<char>, a: int, e: int)
    requires
        0 <= a < e <= s.len(),
        matches_number(s.subrange(a, e)),
    ensures
        number_starts_at(s, a),
        e - a <= number_len_at(s, a),
{
    let t = s.subrange(a, e);
    let n = t.len() as int;
    let (x, y, z) = choose|x: int, y: int, z: int|
        0 <= x <= y <= z <= t.len() && is_sign_part(#[trigger] t.subrange(0, x)) && is_int_part(
            #[trigger] t.subrange(x, y),
        ) && is_frac_part(#[trigger] t.subrange(y, z)) && is_exp_part(t.subrange(z, t.len() as int));
    let ip = t.subrange(x, y);
    let fp = t.subrange(y, z);
    let ep = t.subrange(z, n);
    assert(ip[0] == s[a + x]);
    // the sign and the start
    if x == 1 {
        assert(t.subrange(0, x)[0] == s[a]);
    }
    lemma_digit_is_not_punctuation(s[a]);
    assert(number_starts_at(s, a));
    lemma_number_len_bounds(s, a);
    assert(x == sign_len(s, a));
    let j = a + x;
    lemma_digits_run(s, j);
    lemma_digits_len_bounds(s, j);
    // the integer part is no longer than the run of digits
    if s[j] == '0' {
        assert(y - x == 1);
    } else {
        assert forall|q: int| j <= q < j + (y - x) implies #[trigger] is_digit(s[q]) by {
            if q > j {
                assert(ip.drop_first()[q - j - 1] == s[q]);
            }
        }
        lemma_digits_stretch(s, j, y - x);
    }
    let il = int_len(s, j) as int;
    assert(y - x <= il);
    let k = j + il;
    if y - x < il {
        // the integer part stops inside a run of digits: nothing follows it
        if y < n {
            assert(s[a + y] == t[y]);
            assert(is_digit(s[a + y]));
            lemma_digit_is_not_punctuation(s[a + y]);
            if z > y {
                assert(fp[0] == t[y]);
            }
            assert(z == y);
            if n > z {
                assert(ep[0] == t[z]);
            }
        }
        assert(n <= y);
    } else {
        if 0 <= k < s.len() && s[k] == '.' {
            lemma_digits_run(s, k + 1);
        }
        let fl = frac_len(s, k) as int;
        // the fraction is no longer than the one at k
        if z > y {
            assert(fp[0] == t[y]);
            assert(t[y] == s[k]);
            assert forall|q: int| k + 1 <= q < k + 1 + (z - y - 1) implies #[trigger] is_digit(s[q]) by {
                assert(fp.drop_first()[q - k - 1] == s[q]);
            }
            lemma_digits_stretch(s, k + 1, z - y - 1);
        }
        assert(z - y <= fl);
        let m = k + fl;
        if z - y < fl {
            // the fraction stops short: nothing follows it
            if z < n {
                assert(t[z] == s[a + z]);
                if z == y {
                    assert(s[a + z] == '.');
                } else {
                    assert(is_digit(s[a + z]));
                    lemma_digit_is_not_punctuation(s[a + z]);
                }
                assert(ep[0] == t[z]);
            }
            assert(n <= z);
        } else {
            // the exponent is no longer than the one at m
            if n > z {
                assert(ep[0] == t[z] && t[z] == s[m]);
                assert(is_exp_mark(s[m]));
                assert(ep[1] == s[m + 1]);
                if all_digits(ep.drop_first()) {
                    assert(ep.drop_first()[0] == s[m + 1]);
                    lemma_digit_is_not_punctuation(s[m + 1]);
                    assert forall|q: int| m + 1 <= q < m + 1 + (n - z - 1) implies #[trigger] is_digit(s[q]) by {
                        assert(ep.drop_first()[q - m - 1] == s[q]);
                    }
                    lemma_digits_stretch(s, m + 1, n - z - 1);
                } else {
                    let rest = ep.subrange(2, ep.len() as int);
                    assert(is_sign(s[m + 1]));
                    assert forall|q: int| m + 2 <= q < m + 2 + (n - z - 2) implies #[trigger] is_digit(s[q]) by {
                        assert(rest[q - m - 2] == s[q]);
                    }
                    lemma_digits_stretch(s, m + 2, n - z - 2);
                }
            }
        }
    }
}

/// Law: a number is the longest match of the number pattern at its place:
/// no longer stretch of the value starting where it starts matches.
pub proof fn law_numbers_are_longest(s: Seq<char>, k: int, e: int)
    requires
        0 <= k < number_spans(s).len(),
        number_spans(s)[k].1 < e <= s.len(),
    ensures
        numbers_of(s)[k] == s.subrange(number_spans(s)[k].0, number_spans(s)[k].1),
        !matches_number(s.subrange(number_spans(s)[k].0, e)),
{
    let sp = number_spans(s);
    lemma_spans_from_well_formed(s, 0);
    let a = sp[k].0;
    if matches_number(s.subrange(a, e)) {
        lemma_match_bounded(s, a, e);
    }
}

/// Law: numbers are found leftmost first: no match of the number pattern
/// starts anywhere in the template around them.
pub proof fn law_no_match_starts_in_template(s: Seq<char>, k: int, p: int, e: int)
    requires
        0 <= k <= number_spans(s).len(),
        gap_start(number_spans(s), k, 0) <= p < gap_end(number_spans(s), k, s.len() as int),
        p < e <= s.len(),
    ensures
        !matches_number(s.subrange(p, e)),
{
    lemma_spans_from_well_formed(s, 0);
    lemma_no_start_in_gaps(s, 0);
    lemma_gap_bounds(s, number_spans(s), k);
    assert(!number_starts_at(s, p));
    if matches_number(s.subrange(p, e)) {
        lemma_match_bounded(s, p, e);
    }
}

} // verus!
