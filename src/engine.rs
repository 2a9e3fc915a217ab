use vstd::prelude::*;
use crate::geometry::{Point, Rect};
use crate::text::{
    lemma_index_of_absent, lemma_index_of_found,
    chars_of, has_visible, has_visible_char, split_chars, split_on, string_from, strip_cr,
    text_lines, views,
};

verus! {

/// The number of tab-separated columns in a row of the engine's table.
pub const ENGINE_COLUMNS: usize = 12;

/// A row is kept only when its confidence is strictly above this many points
/// (on the 0 to 100 scale).
pub const MIN_CONFIDENCE: i64 = 50;

/// Most digits that a confidence field may hold.
pub const MAX_DECIMAL_DIGITS: usize = 16;

/// Most digits that a geometry field may hold.
pub const MAX_INT_DIGITS: usize = 9;

/// A decimal number, `value / 10^decimals`, as the engine printed it.
#[derive(Clone, Copy, Debug, PartialEq, Eq, Structural)]
pub struct Confidence {
    pub value: i64,
    pub decimals: u32,
}

/// One word that the engine recognised, with its box in the pixel space of
/// the image that the engine was given.
#[derive(Debug)]
pub struct RecognizedWord {
    pub text: String,
    pub confidence: Confidence,
    pub bbox: Rect,
}

/// What a word holds, for contracts.
pub type WordModel = (Seq<char>, Confidence, Rect);

impl Clone for RecognizedWord {
    fn clone(&self) -> (r: Self)
        ensures
            r@ == self@,
    {
        RecognizedWord { text: self.text.clone(), confidence: self.confidence, bbox: self.bbox }
    }
}

impl View for RecognizedWord {
    type V = WordModel;

    open spec fn view(&self) -> WordModel {
        (self.text@, self.confidence, self.bbox)
    }
}

pub open spec fn word_views(ws: Seq<RecognizedWord>) -> Seq<WordModel> {
    ws.map_values(|w: RecognizedWord| w@)
}

pub open spec fn pow10(n: nat) -> int
    decreases n,
{
    if n == 0 {
        1
    } else {
        10 * pow10((n - 1) as nat)
    }
}

pub open spec fn is_digit(c: char) -> bool {
    '0' <= c && c <= '9'
}

pub open spec fn all_digits(s: Seq<char>) -> bool {
    forall|i: int| 0 <= i < s.len() ==> is_digit(#[trigger] s[i])
}

pub open spec fn digit_value(c: char) -> int {
    c as int - '0' as int
}

/// The number that a string of decimal digits writes.
pub open spec fn digits_value(s: Seq<char>) -> int
    decreases s.len(),
{
    if s.len() == 0 {
        0
    } else {
        digits_value(s.drop_last()) * 10 + digit_value(s.last())
    }
}

pub open spec fn sign_len(s: Seq<char>) -> int {
    if s.len() > 0 && (s[0] == '-' || s[0] == '+') {
        1
    } else {
        0
    }
}

pub open spec fn is_negative(s: Seq<char>) -> bool {
    s.len() > 0 && s[0] == '-'
}

pub open spec fn signed(neg: bool, v: int) -> int {
    if neg {
        -v
    } else {
        v
    }
}

/// An integer field: an optional sign, then one to nine digits.
pub open spec fn spec_parse_int(s: Seq<char>) -> Option<int> {
    let body = s.skip(sign_len(s));
    if 1 <= body.len() <= MAX_INT_DIGITS && all_digits(body) {
        Some(signed(is_negative(s), digits_value(body)))
    } else {
        None
    }
}

/// The digits of a decimal field before and after its point.
pub open spec fn decimal_parts(s: Seq<char>) -> (Seq<char>, Seq<char>) {
    let body = s.skip(sign_len(s));
    let k = index_of_point(body);
    if k < body.len() {
        (body.take(k), body.skip(k + 1))
    } else {
        (body, Seq::empty())
    }
}

pub open spec fn index_of_point(s: Seq<char>) -> int {
    crate::text::index_of(s, '.') as int
}

/// A decimal field: an optional sign, digits, and optionally a point and more
/// digits; one to sixteen digits in all.
pub open spec fn spec_parse_decimal(s: Seq<char>) -> Option<Confidence> {
    let (ip, fp) = decimal_parts(s);
    let ds = ip + fp;
    if 1 <= ds.len() <= MAX_DECIMAL_DIGITS && all_digits(ds) {
        Some(
            Confidence {
                value: signed(is_negative(s), digits_value(ds)) as i64,
                decimals: fp.len() as u32,
            },
        )
    } else {
        None
    }
}

impl Confidence {
    /// Whether the number is strictly greater than the integer `whole`.
    pub open spec fn spec_exceeds(self, whole: int) -> bool {
        self.value > whole * pow10(self.decimals as nat)
    }
}

/// The word that one row of the engine's table gives, if any: a row of twelve
/// columns whose confidence (column 10) parses and is above the threshold,
/// whose geometry (columns 6 to 9: left, top, width, height) parses, and whose
/// text (column 11) is not blank once trimmed.
pub open spec fn spec_parse_row(line: Seq<char>) -> Option<WordModel> {
    let c = split_on(line, '\t');
    if c.len() == ENGINE_COLUMNS {
        match (
            spec_parse_decimal(c[10]),
            spec_parse_int(c[6]),
            spec_parse_int(c[7]),
            spec_parse_int(c[8]),
            spec_parse_int(c[9]),
        ) {
            (Some(conf), Some(x), Some(y), Some(w), Some(h)) => {
                if conf.spec_exceeds(MIN_CONFIDENCE as int) && has_visible(c[11]) {
                    Some(
                        (
                            c[11],
                            conf,
                            Rect {
                                min: Point { x: x as i32, y: y as i32 },
                                max: Point { x: (x + w) as i32, y: (y + h) as i32 },
                            },
                        ),
                    )
                } else {
                    None
                }
            },
            _ => None,
        }
    } else {
        None
    }
}

/// The words of a sequence of rows, in row order.
pub open spec fn rows_words(rows: Seq<Seq<char>>) -> Seq<WordModel>
    decreases rows.len(),
{
    if rows.len() == 0 {
        Seq::empty()
    } else {
        let prev = rows_words(rows.drop_last());
        match spec_parse_row(rows.last()) {
            Some(w) => prev.push(w),
            None => prev,
        }
    }
}

/// The words of the engine's whole table: every line after the header.
pub open spec fn engine_words(out: Seq<char>) -> Seq<WordModel> {
    let ls = text_lines(out);
    if ls.len() == 0 {
        Seq::empty()
    } else {
        rows_words(ls.skip(1))
    }
}

proof fn lemma_digits_push(s: Seq<char>, c: char)
    ensures
        digits_value(s.push(c)) == digits_value(s) * 10 + digit_value(c),
{
    assert(s.push(c).drop_last() =~= s);
}

proof fn lemma_digits_bound(s: Seq<char>)
    requires
        all_digits(s),
    ensures
        0 <= digits_value(s) < pow10(s.len()),
    decreases s.len(),
{
    if s.len() > 0 {
        let t = s.drop_last();
        assert(all_digits(t)) by {
            assert forall|i: int| 0 <= i < t.len() implies is_digit(#[trigger] t[i]) by {
                assert(t[i] == s[i]);
            }
        }
        lemma_digits_bound(t);
        assert(is_digit(s[s.len() - 1]));
    }
}

proof fn lemma_pow10_mono(a: nat, b: nat)
    requires
        a <= b,
    ensures
        1 <= pow10(a) <= pow10(b),
    decreases b,
{
    if b > 0 {
        if a < b {
            lemma_pow10_mono(a, (b - 1) as nat);
        } else {
            lemma_pow10_mono((a - 1) as nat, (b - 1) as nat);
        }
    }
}

proof fn lemma_pow10_16()
    ensures
        pow10(16) == 10000000000000000,
{
    reveal_with_fuel(pow10, 17);
}

/// Adds the digits `s[from..to]` to the number written by `prefix`, whose
/// value is `v`.
fn accumulate_digits(s: &Vec<char>, from: usize, to: usize, v: i64, Ghost(prefix): Ghost<
    Seq<char>,
>) -> (r: Option<i64>)
    requires
        from <= to <= s.len(),
        all_digits(prefix),
        v == digits_value(prefix),
        prefix.len() + (to - from) <= MAX_DECIMAL_DIGITS,
    ensures
        r is Some <==> all_digits(s@.subrange(from as int, to as int)),
        r is Some ==> r->0 == digits_value(prefix + s@.subrange(from as int, to as int)),
{
    let mut acc = v;
    let mut i = from;
    assert(prefix + s@.subrange(from as int, from as int) =~= prefix);
    while i < to
        invariant
            from <= i <= to <= s.len(),
            all_digits(prefix + s@.subrange(from as int, i as int)),
            acc == digits_value(prefix + s@.subrange(from as int, i as int)),
            prefix.len() + (to - from) <= MAX_DECIMAL_DIGITS,
        decreases to - i,
    {
        let c = s[i];
        if !('0' <= c && c <= '9') {
            assert(!is_digit(s@.subrange(from as int, to as int)[i - from]));
            return None;
        }
        let ghost t = prefix + s@.subrange(from as int, i as int);
        proof {
            lemma_digits_bound(t);
            lemma_pow10_mono(t.len(), 15);
            lemma_pow10_16();
            assert(t.push(c) =~= prefix + s@.subrange(from as int, i + 1));
            lemma_digits_push(t, c);
        }
        acc = acc * 10 + (c as i64 - '0' as i64);
        i = i + 1;
    }
    proof {
        let sub = s@.subrange(from as int, to as int);
        assert forall|j: int| 0 <= j < sub.len() implies is_digit(#[trigger] sub[j]) by {
            assert(sub[j] == (prefix + sub)[prefix.len() + j]);
        }
    }
    Some(acc)
}

proof fn lemma_all_digits_concat(a: Seq<char>, b: Seq<char>)
    ensures
        all_digits(a + b) <==> (all_digits(a) && all_digits(b)),
{
    if all_digits(a + b) {
        assert forall|i: int| 0 <= i < a.len() implies is_digit(#[trigger] a[i]) by {
            assert(a[i] == (a + b)[i]);
        }
        assert forall|i: int| 0 <= i < b.len() implies is_digit(#[trigger] b[i]) by {
            assert(b[i] == (a + b)[a.len() + i]);
        }
    }
}

proof fn lemma_pow10_9()
    ensures
        pow10(9) == 1000000000,
{
    reveal_with_fuel(pow10, 10);
}

/// Where the sign of a numeric field ends.
fn sign_end(s: &Vec<char>) -> (r: usize)
    ensures
        r == sign_len(s@),
{
    if s.len() > 0 && (s[0] == '-' || s[0] == '+') {
        1
    } else {
        0
    }
}

/// Parses an integer field: an optional sign, then one to nine digits.
pub fn parse_int(s: &Vec<char>) -> (r: Option<i64>)
    ensures
        r is Some <==> spec_parse_int(s@) is Some,
        r is Some ==> r->0 == spec_parse_int(s@)->0,
        r is Some ==> -1000000000 < r->0 < 1000000000,
{
    let n = s.len();
    let st = sign_end(s);
    let neg = n > 0 && s[0] == '-';
    assert(s@.skip(st as int) =~= s@.subrange(st as int, n as int));
    if n - st < 1 || n - st > MAX_INT_DIGITS {
        return None;
    }
    assert(Seq::<char>::empty() + s@.subrange(st as int, n as int) =~= s@.subrange(
        st as int,
        n as int,
    ));
    match accumulate_digits(s, st, n, 0, Ghost(Seq::empty())) {
        None => None,
        Some(v) => {
            proof {
                lemma_digits_bound(s@.subrange(st as int, n as int));
                lemma_pow10_mono((n - st) as nat, 9);
                lemma_pow10_9();
            }
            if neg {
                Some(-v)
            } else {
                Some(v)
            }
        },
    }
}

/// Parses a decimal field: an optional sign, digits, and optionally a point
/// and more digits, one to sixteen digits in all.
pub fn parse_decimal(s: &Vec<char>) -> (r: Option<Confidence>)
    ensures
        r == spec_parse_decimal(s@),
        r is Some ==> r->0.decimals <= MAX_DECIMAL_DIGITS,
{
    let n = s.len();
    let st = sign_end(s);
    let neg = n > 0 && s[0] == '-';
    let mut k = st;
    while k < n && s[k] != '.'
        invariant
            st <= k <= n == s.len(),
            forall|j: int| st <= j < k ==> s@[j] != '.',
        decreases n - k,
    {
        k = k + 1;
    }
    let ghost body = s@.skip(st as int);
    proof {
        assert forall|j: int| 0 <= j < k - st implies body[j] != '.' by {
            assert(body[j] == s@[st + j]);
        }
        if k < n {
            assert(body[k - st] == s@[k as int]);
            lemma_index_of_found(body, '.', k - st);
            assert(body.take(k - st) =~= s@.subrange(st as int, k as int));
            assert(body.skip(k - st + 1) =~= s@.subrange(k + 1, n as int));
        } else {
            lemma_index_of_absent(body, '.');
            assert(body =~= s@.subrange(st as int, k as int));
            assert(Seq::<char>::empty() =~= s@.subrange(n as int, n as int));
        }
    }
    let fs = if k < n {
        k + 1
    } else {
        n
    };
    let ghost ip = s@.subrange(st as int, k as int);
    let ghost fp = s@.subrange(fs as int, n as int);
    assert(decimal_parts(s@) == (ip, fp));
    let total = (k - st) + (n - fs);
    if total < 1 || total > MAX_DECIMAL_DIGITS {
        return None;
    }
    assert(Seq::<char>::empty() + ip =~= ip);
    proof {
        lemma_all_digits_concat(ip, fp);
    }
    let a = match accumulate_digits(s, st, k, 0, Ghost(Seq::empty())) {
        None => {
            return None;
        },
        Some(a) => a,
    };
    let b = match accumulate_digits(s, fs, n, a, Ghost(ip)) {
        None => {
            return None;
        },
        Some(b) => b,
    };
    proof {
        lemma_digits_bound(ip + fp);
        lemma_pow10_mono((ip + fp).len(), 16);
        lemma_pow10_16();
    }
    let value = if neg {
        -b
    } else {
        b
    };
    Some(Confidence { value, decimals: (n - fs) as u32 })
}

impl Confidence {
    /// Whether the number is strictly greater than the engine's confidence
    /// threshold.
    pub fn above_threshold(&self) -> (r: bool)
        requires
            self.decimals <= MAX_DECIMAL_DIGITS,
        ensures
            r == self.spec_exceeds(MIN_CONFIDENCE as int),
    {
        let mut p: i64 = 1;
        let mut k: u32 = 0;
        while k < self.decimals
            invariant
                k <= self.decimals <= MAX_DECIMAL_DIGITS,
                p == pow10(k as nat),
            decreases self.decimals - k,
        {
            proof {
                lemma_pow10_mono((k + 1) as nat, 16);
                lemma_pow10_16();
            }
            p = p * 10;
            k = k + 1;
        }
        proof {
            lemma_pow10_mono(k as nat, 16);
            lemma_pow10_16();
        }
        self.value > MIN_CONFIDENCE * p
    }
}

/// Parses one row of the engine's table into a word, or gives `None` for a
/// row that is malformed, below the confidence threshold, or blank.
pub fn parse_row(line: &Vec<char>) -> (r: Option<RecognizedWord>)
    ensures
        r is Some <==> spec_parse_row(line@) is Some,
        r is Some ==> r->0@ == spec_parse_row(line@)->0,
{
    let c = split_chars(line, '\t');
    if c.len() != ENGINE_COLUMNS {
        return None;
    }
    assert(c@[10]@ == split_on(line@, '\t')[10]);
    assert(c@[6]@ == split_on(line@, '\t')[6]);
    assert(c@[7]@ == split_on(line@, '\t')[7]);
    assert(c@[8]@ == split_on(line@, '\t')[8]);
    assert(c@[9]@ == split_on(line@, '\t')[9]);
    assert(c@[11]@ == split_on(line@, '\t')[11]);
    let conf = match parse_decimal(&c[10]) {
        Some(v) => v,
        None => {
            return None;
        },
    };
    let x = match parse_int(&c[6]) {
        Some(v) => v,
        None => {
            return None;
        },
    };
    let y = match parse_int(&c[7]) {
        Some(v) => v,
        None => {
            return None;
        },
    };
    let w = match parse_int(&c[8]) {
        Some(v) => v,
        None => {
            return None;
        },
    };
    let h = match parse_int(&c[9]) {
        Some(v) => v,
        None => {
            return None;
        },
    };
    if !conf.above_threshold() || !has_visible_char(&c[11]) {
        return None;
    }
    let text = string_from(&c[11], 0, c[11].len());
    assert(c@[11]@.subrange(0, c@[11]@.len() as int) =~= c@[11]@);
    let bbox = Rect {
        min: Point { x: x as i32, y: y as i32 },
        max: Point { x: (x + w) as i32, y: (y + h) as i32 },
    };
    Some(RecognizedWord { text, confidence: conf, bbox })
}

/// A copy of `v`, without a final carriage return when `strip` holds.
fn copy_line(v: &Vec<char>, strip: bool) -> (r: Vec<char>)
    ensures
        r@ == (if strip {
            strip_cr(v@)
        } else {
            v@
        }),
{
    let mut n = v.len();
    if strip && n > 0 && v[n - 1] == '\r' {
        n = n - 1;
    }
    let mut r: Vec<char> = Vec::new();
    let mut i: usize = 0;
    while i < n
        invariant
            i <= n <= v.len(),
            r@ == v@.subrange(0, i as int),
        decreases n - i,
    {
        r.push(v[i]);
        assert(v@.subrange(0, i + 1) =~= v@.subrange(0, i as int).push(v@[i as int]));
        i = i + 1;
    }
    assert(strip_cr(v@) =~= v@.subrange(0, n as int) || !strip);
    assert(!strip ==> v@ =~= v@.subrange(0, n as int));
    r
}

/// Parses the engine's whole table: the header line is skipped, and each
/// later line that gives a word adds it, in line order.
pub fn parse_engine_output(output: &str) -> (r: Vec<RecognizedWord>)
    ensures
        word_views(r@) == engine_words(output@),
{
    let cs = chars_of(output);
    let pieces = split_chars(&cs, '\n');
    let ghost p = split_on(cs@, '\n');
    let ghost ls = text_lines(cs@);
    let n = pieces.len();
    assert(p.len() >= 1);
    assert(pieces@[n - 1]@ == p.last());
    let count = if pieces[n - 1].len() == 0 {
        n - 1
    } else {
        n
    };
    assert(ls.len() == count);
    let mut words: Vec<RecognizedWord> = Vec::new();
    if count == 0 {
        assert(word_views(words@) =~= Seq::<WordModel>::empty());
        return words;
    }
    let mut i: usize = 1;
    assert(word_views(words@) =~= rows_words(ls.subrange(1, 1)));
    while i < count
        invariant
            1 <= i <= count <= n == pieces.len(),
            views(pieces@) == p,
            ls == text_lines(cs@),
            p == split_on(cs@, '\n'),
            ls.len() == count,
            count == n - 1 || count == n,
            count == n ==> p.last().len() > 0,
            word_views(words@) == rows_words(ls.subrange(1, i as int)),
        decreases count - i,
    {
        let row = copy_line(&pieces[i], i + 1 < n);
        assert(pieces@[i as int]@ == p[i as int]);
        assert(row@ == ls[i as int]);
        let ghost before = words@;
        match parse_row(&row) {
            Some(w) => {
                words.push(w);
                assert(word_views(words@) =~= word_views(before).push(w@));
            },
            None => {},
        }
        assert(ls.subrange(1, i + 1).drop_last() =~= ls.subrange(1, i as int));
        i = i + 1;
    }
    assert(ls.subrange(1, count as int) =~= ls.skip(1));
    words
}

/// A row gives a word exactly when it has twelve columns, its confidence and
/// geometry fields parse, its confidence is strictly above the threshold, and
/// its text is not blank once trimmed. A row at or below the threshold never
/// gives one.
pub proof fn lemma_row_accepted_iff(line: Seq<char>)
    ensures
        spec_parse_row(line) is Some <==> {
            let c = split_on(line, '\t');
            &&& c.len() == ENGINE_COLUMNS
            &&& spec_parse_decimal(c[10]) is Some
            &&& spec_parse_int(c[6]) is Some
            &&& spec_parse_int(c[7]) is Some
            &&& spec_parse_int(c[8]) is Some
            &&& spec_parse_int(c[9]) is Some
            &&& spec_parse_decimal(c[10])->0.spec_exceeds(MIN_CONFIDENCE as int)
            &&& has_visible(c[11])
        },
        spec_parse_row(line) is Some ==> (spec_parse_row(line)->0).1 == spec_parse_decimal(
            split_on(line, '\t')[10],
        )->0,
{
}

/// A row whose column count is not twelve gives no word.
pub proof fn lemma_wrong_width_row_skipped(line: Seq<char>)
    requires
        split_on(line, '\t').len() != ENGINE_COLUMNS,
    ensures
        spec_parse_row(line) is None,
{
}

/// Every word that the table gives has a confidence strictly above the
/// threshold and a text that is not blank.
pub proof fn lemma_words_above_threshold(rows: Seq<Seq<char>>)
    ensures
        forall|i: int|
            0 <= i < rows_words(rows).len() ==> (#[trigger] rows_words(rows)[i]).1.spec_exceeds(
                MIN_CONFIDENCE as int,
            ) && has_visible(rows_words(rows)[i].0),
    decreases rows.len(),
{
    if rows.len() > 0 {
        lemma_words_above_threshold(rows.drop_last());
        let prev = rows_words(rows.drop_last());
        match spec_parse_row(rows.last()) {
            Some(w) => {
                lemma_row_accepted_iff(rows.last());
                assert forall|i: int| 0 <= i < prev.push(w).len() implies (#[trigger] prev.push(
                    w,
                )[i]).1.spec_exceeds(MIN_CONFIDENCE as int) && has_visible(prev.push(w)[i].0) by {
                    if i < prev.len() {
                        assert(prev.push(w)[i] == prev[i]);
                    }
                }
            },
            None => {},
        }
    }
}

/// Every row that gives a word contributes that word.
pub proof fn lemma_accepted_row_gives_word(rows: Seq<Seq<char>>, j: int)
    requires
        0 <= j < rows.len(),
        spec_parse_row(rows[j]) is Some,
    ensures
        rows_words(rows).contains(spec_parse_row(rows[j])->0),
    decreases rows.len(),
{
    let w = spec_parse_row(rows[j])->0;
    let prev = rows_words(rows.drop_last());
    if j == rows.len() - 1 {
        assert(rows_words(rows) == prev.push(w));
        assert(prev.push(w)[prev.len() as int] == w);
    } else {
        assert(rows.drop_last()[j] == rows[j]);
        lemma_accepted_row_gives_word(rows.drop_last(), j);
        let k = choose|k: int| 0 <= k < prev.len() && prev[k] == w;
        match spec_parse_row(rows.last()) {
            Some(v) => {
                assert(prev.push(v)[k] == w);
            },
            None => {},
        }
    }
}

proof fn lemma_rows_words_concat(a: Seq<Seq<char>>, b: Seq<Seq<char>>)
    ensures
        rows_words(a + b) == rows_words(a) + rows_words(b),
    decreases b.len(),
{
    if b.len() == 0 {
        assert(a + b =~= a);
        assert(rows_words(a) + rows_words(b) =~= rows_words(a));
    } else {
        assert((a + b).drop_last() =~= a + b.drop_last());
        assert((a + b).last() == b.last());
        lemma_rows_words_concat(a, b.drop_last());
        match spec_parse_row(b.last()) {
            Some(w) => {
                assert(rows_words(a) + rows_words(b.drop_last()).push(w) =~= (rows_words(a)
                    + rows_words(b.drop_last())).push(w));
            },
            None => {},
        }
    }
}

/// A row whose column count is not twelve, put anywhere among the rows,
/// changes none of the words that they give.
pub proof fn lemma_wrong_width_row_changes_nothing(
    before: Seq<Seq<char>>,
    bad: Seq<char>,
    after: Seq<Seq<char>>,
)
    requires
        split_on(bad, '\t').len() != ENGINE_COLUMNS,
    ensures
        rows_words(before + seq![bad] + after) == rows_words(before + after),
{
    lemma_rows_words_concat(before + seq![bad], after);
    lemma_rows_words_concat(before, seq![bad]);
    lemma_rows_words_concat(before, after);
    let one = seq![bad];
    assert(one.drop_last() =~= Seq::<Seq<char>>::empty());
    assert(rows_words(one.drop_last()).len() == 0);
    assert(one.last() == bad);
    lemma_wrong_width_row_skipped(bad);
    assert(rows_words(one) =~= Seq::<WordModel>::empty());
    assert(rows_words(before) + rows_words(seq![bad]) =~= rows_words(before));
}

/// An engine table with one more line after the header, whose column count
/// is not twelve, gives the same words as the table without it.
pub proof fn lemma_inserted_malformed_line(out1: Seq<char>, out2: Seq<char>, k: int, bad: Seq<char>)
    requires
        1 <= k <= text_lines(out1).len(),
        text_lines(out2) == text_lines(out1).insert(k, bad),
        split_on(bad, '\t').len() != ENGINE_COLUMNS,
    ensures
        engine_words(out2) == engine_words(out1),
{
    let l1 = text_lines(out1);
    let before = l1.subrange(1, k);
    let after = l1.subrange(k, l1.len() as int);
    assert(text_lines(out2).skip(1) =~= before + seq![bad] + after);
    assert(l1.skip(1) =~= before + after);
    lemma_wrong_width_row_changes_nothing(before, bad, after);
}

} // verus!
