use vstd::prelude::*;
use crate::engine::{word_views, RecognizedWord, WordModel};
use crate::geometry::Rect;
use crate::text::{join_spaced, join_with_spaces, string_views, trim, trimmed};

verus! {

/// A word joins the current line only when the gap between its top edge and
/// the bottom edge of the line's last word is smaller than this.
pub const LINE_GAP_Y: i64 = 50;

/// A word joins the current line only when the gap between its left edge and
/// the right edge of the line's last word lies strictly within this distance
/// either way.
pub const LINE_GAP_X: i64 = 50;

/// A line of words in reading order, with the union of their boxes.
#[derive(Debug)]
pub struct RecognizedLine {
    pub words: Vec<RecognizedWord>,
    pub bbox: Rect,
}

pub type LineModel = (Seq<WordModel>, Rect);

impl RecognizedLine {
    /// The line's box in the pixel space of the crop: the engine saw the crop
    /// scaled up twice, so its coordinates are halved.
    pub fn crop_local_bbox(&self) -> (r: Rect)
        ensures
            r == self.bbox.spec_halved(),
    {
        self.bbox.halved()
    }
}

impl View for RecognizedLine {
    type V = LineModel;

    open spec fn view(&self) -> LineModel {
        (word_views(self.words@), self.bbox)
    }
}

pub open spec fn line_views(ls: Seq<RecognizedLine>) -> Seq<LineModel> {
    ls.map_values(|l: RecognizedLine| l@)
}

/// Whether `a` comes strictly before `b` in reading order: higher up, or at
/// the same height and further left.
pub open spec fn reads_before(a: WordModel, b: WordModel) -> bool {
    a.2.min.y < b.2.min.y || (a.2.min.y == b.2.min.y && a.2.min.x < b.2.min.x)
}

/// `w` put into the ordered `s` after every word that it does not come
/// before.
pub open spec fn insert_ordered(s: Seq<WordModel>, w: WordModel) -> Seq<WordModel>
    decreases s.len(),
{
    if s.len() == 0 {
        seq![w]
    } else if reads_before(w, s.last()) {
        insert_ordered(s.drop_last(), w).push(s.last())
    } else {
        s.push(w)
    }
}

/// The words in reading order; words at the same position keep their order.
pub open spec fn reading_order(s: Seq<WordModel>) -> Seq<WordModel>
    decreases s.len(),
{
    if s.len() == 0 {
        Seq::empty()
    } else {
        insert_ordered(reading_order(s.drop_last()), s.last())
    }
}

pub open spec fn abs_i(v: int) -> int {
    if v < 0 {
        -v
    } else {
        v
    }
}

/// Whether `w` continues a line whose last word is `last`.
pub open spec fn continues_line(last: WordModel, w: WordModel) -> bool {
    let dy = w.2.min.y - last.2.max.y;
    let dx = w.2.min.x - last.2.max.x;
    abs_i(dy) < LINE_GAP_Y && -LINE_GAP_X < dx < LINE_GAP_X
}

/// The greedy grouping of ordered words into lines.
pub open spec fn group_ordered(s: Seq<WordModel>) -> Seq<Seq<WordModel>>
    decreases s.len(),
{
    if s.len() == 0 {
        Seq::empty()
    } else {
        let g = group_ordered(s.drop_last());
        let w = s.last();
        if g.len() == 0 {
            seq![seq![w]]
        } else if continues_line(g.last().last(), w) {
            g.update(g.len() - 1, g.last().push(w))
        } else {
            g.push(seq![w])
        }
    }
}

/// The union of the boxes of a non-empty run of words.
pub open spec fn union_of(s: Seq<WordModel>) -> Rect
    decreases s.len(),
{
    if s.len() <= 1 {
        s[0].2
    } else {
        union_of(s.drop_last()).spec_union(s.last().2)
    }
}

/// The lines that a set of words forms.
pub open spec fn lines_of(words: Seq<WordModel>) -> Seq<LineModel> {
    group_ordered(reading_order(words)).map_values(|g: Seq<WordModel>| (g, union_of(g)))
}

fn word_reads_before(a: &RecognizedWord, b: &RecognizedWord) -> (r: bool)
    ensures
        r == reads_before(a@, b@),
{
    a.bbox.min.y < b.bbox.min.y || (a.bbox.min.y == b.bbox.min.y && a.bbox.min.x < b.bbox.min.x)
}

proof fn lemma_insert_at(s: Seq<WordModel>, w: WordModel, j: int)
    requires
        0 <= j <= s.len(),
        forall|k: int| j <= k < s.len() ==> reads_before(w, #[trigger] s[k]),
        j == 0 || !reads_before(w, s[j - 1]),
    ensures
        insert_ordered(s, w) == s.insert(j, w),
    decreases s.len(),
{
    if s.len() == 0 {
        assert(s.insert(j, w) =~= seq![w]);
    } else if j == s.len() {
        assert(s.insert(j, w) =~= s.push(w));
    } else {
        assert(reads_before(w, s[s.len() - 1]));
        let t = s.drop_last();
        assert forall|k: int| j <= k < t.len() implies reads_before(w, #[trigger] t[k]) by {
            assert(t[k] == s[k]);
        }
        lemma_insert_at(t, w, j);
        assert(t.insert(j, w).push(s.last()) =~= s.insert(j, w));
    }
}

/// The words in reading order (top to bottom, then left to right); words at
/// the same position keep the order they had.
pub fn sort_reading_order(words: &Vec<RecognizedWord>) -> (r: Vec<RecognizedWord>)
    ensures
        word_views(r@) == reading_order(word_views(words@)),
{
    let mut out: Vec<RecognizedWord> = Vec::new();
    let mut i: usize = 0;
    while i < words.len()
        invariant
            i <= words.len(),
            word_views(out@) == reading_order(word_views(words@).take(i as int)),
        decreases words.len() - i,
    {
        let w = words[i].clone();
        let mut j = out.len();
        while j > 0 && word_reads_before(&w, &out[j - 1])
            invariant
                j <= out.len(),
                forall|k: int| j <= k < out.len() ==> reads_before(w@, #[trigger] out@[k]@),
            decreases j,
        {
            j = j - 1;
        }
        let ghost before = word_views(out@);
        proof {
            assert forall|k: int| j <= k < before.len() implies reads_before(
                w@,
                #[trigger] before[k],
            ) by {
                assert(before[k] == out@[k]@);
            }
            if j > 0 {
                assert(before[j - 1] == out@[j - 1]@);
            }
            lemma_insert_at(before, w@, j as int);
            assert(word_views(words@).take(i + 1).drop_last() =~= word_views(words@).take(
                i as int,
            ));
            assert(word_views(words@).take(i + 1).last() == words@[i as int]@);
        }
        out.insert(j, w);
        assert(word_views(out@) =~= before.insert(j as int, w@));
        i = i + 1;
    }
    assert(word_views(words@).take(words.len() as int) =~= word_views(words@));
    out
}

fn word_continues_line(last: &RecognizedWord, w: &RecognizedWord) -> (r: bool)
    ensures
        r == continues_line(last@, w@),
{
    let dy = w.bbox.min.y as i64 - last.bbox.max.y as i64;
    let dx = w.bbox.min.x as i64 - last.bbox.max.x as i64;
    let ady = if dy < 0 {
        -dy
    } else {
        dy
    };
    ady < LINE_GAP_Y && -LINE_GAP_X < dx && dx < LINE_GAP_X
}

pub open spec fn groups_of(ls: Seq<LineModel>) -> Seq<Seq<WordModel>> {
    ls.map_values(|l: LineModel| l.0)
}

/// Groups words into lines: the words are put in reading order, then each
/// word joins the line of the word before it when it lies close enough below
/// and beside that word, and starts a new line otherwise. Each line's box is
/// the union of its words' boxes.
pub fn group_words_into_lines(words: &Vec<RecognizedWord>) -> (r: Vec<RecognizedLine>)
    ensures
        line_views(r@) == lines_of(word_views(words@)),
{
    let sorted = sort_reading_order(words);
    let ghost s = word_views(sorted@);
    let mut lines: Vec<RecognizedLine> = Vec::new();
    let mut current: Vec<RecognizedWord> = Vec::new();
    let mut cur_box = Rect { min: crate::geometry::Point { x: 0, y: 0 }, max: crate::geometry::Point { x: 0, y: 0 } };
    let mut i: usize = 0;
    while i < sorted.len()
        invariant
            i <= sorted.len(),
            s == word_views(sorted@),
            i == 0 <==> current.len() == 0,
            i == 0 ==> lines.len() == 0,
            i > 0 ==> group_ordered(s.take(i as int)) == groups_of(line_views(lines@)).push(
                word_views(current@),
            ),
            i > 0 ==> cur_box == union_of(word_views(current@)),
            forall|k: int|
                0 <= k < lines.len() ==> (#[trigger] lines@[k]).words.len() > 0 && lines@[k].bbox
                    == union_of(word_views(lines@[k].words@)),
        decreases sorted.len() - i,
    {
        let w = sorted[i].clone();
        let ghost t = s.take(i + 1);
        assert(t.drop_last() =~= s.take(i as int));
        assert(t.last() == w@);
        if current.len() == 0 {
            cur_box = w.bbox;
            current.push(w);
            assert(word_views(current@) =~= seq![w@]);
            assert(groups_of(line_views(lines@)) =~= Seq::<Seq<WordModel>>::empty());
            assert(t.drop_last().len() == 0);
            assert(group_ordered(t.drop_last()).len() == 0);
            assert(group_ordered(t) == seq![seq![w@]]);
            assert(group_ordered(t) =~= groups_of(line_views(lines@)).push(word_views(current@)));
        } else {
            let n = current.len();
            assert(word_views(current@).last() == current@[n - 1]@);
            if word_continues_line(&current[n - 1], &w) {
                let ghost old_cur = word_views(current@);
                cur_box = cur_box.union(&w.bbox);
                current.push(w);
                assert(word_views(current@) =~= old_cur.push(w@));
                assert(word_views(current@).drop_last() =~= old_cur);
                assert(group_ordered(t) =~= groups_of(line_views(lines@)).push(
                    word_views(current@),
                ));
            } else {
                let ghost old_lines = line_views(lines@);
                let ghost old_cur = word_views(current@);
                lines.push(RecognizedLine { words: current, bbox: cur_box });
                current = Vec::new();
                cur_box = w.bbox;
                current.push(w);
                assert(word_views(current@) =~= seq![w@]);
                assert(groups_of(line_views(lines@)) =~= groups_of(old_lines).push(old_cur));
                assert(group_ordered(t) =~= groups_of(line_views(lines@)).push(
                    word_views(current@),
                ));
            }
        }
        i = i + 1;
    }
    let ghost g = group_ordered(s);
    assert(s.take(s.len() as int) =~= s);
    if current.len() > 0 {
        let ghost old_lines = line_views(lines@);
        let ghost old_cur = word_views(current@);
        lines.push(RecognizedLine { words: current, bbox: cur_box });
        assert(groups_of(line_views(lines@)) =~= groups_of(old_lines).push(old_cur));
    } else {
        assert(groups_of(line_views(lines@)) =~= g);
    }
    proof {
        assert(groups_of(line_views(lines@)) =~= g);
        assert(line_views(lines@) =~= g.map_values(|g: Seq<WordModel>| (g, union_of(g)))) by {
            assert forall|k: int| 0 <= k < lines.len() implies line_views(lines@)[k] == (
            g[k], union_of(g[k])) by {
                assert(line_views(lines@)[k] == lines@[k]@);
                assert(groups_of(line_views(lines@))[k] == line_views(lines@)[k].0);
            }
        }
    }
    lines
}

/// The text of a line: its words, trimmed, with one space between each two.
pub open spec fn line_text(l: LineModel) -> Seq<char> {
    join_spaced(l.0.map_values(|w: WordModel| trim(w.0)))
}

/// The text of all lines, with one space between each two lines.
pub open spec fn lines_text(ls: Seq<LineModel>) -> Seq<char> {
    join_spaced(ls.map_values(|l: LineModel| line_text(l)))
}

/// The text of one line.
pub fn line_string(line: &RecognizedLine) -> (r: String)
    ensures
        r@ == line_text(line@),
{
    let mut parts: Vec<String> = Vec::new();
    let mut i: usize = 0;
    while i < line.words.len()
        invariant
            i <= line.words.len(),
            string_views(parts@) == word_views(line.words@).map_values(|w: WordModel| trim(w.0)).take(
                i as int,
            ),
        decreases line.words.len() - i,
    {
        let t = trimmed(line.words[i].text.as_str());
        let ghost before = string_views(parts@);
        parts.push(t);
        assert(string_views(parts@) =~= before.push(t@));
        assert(word_views(line.words@)[i as int] == line.words@[i as int]@);
        assert(string_views(parts@) =~= word_views(line.words@).map_values(
            |w: WordModel| trim(w.0),
        ).take(i + 1));
        i = i + 1;
    }
    assert(word_views(line.words@).map_values(|w: WordModel| trim(w.0)).take(
        line.words.len() as int,
    ) =~= word_views(line.words@).map_values(|w: WordModel| trim(w.0)));
    join_with_spaces(&parts)
}

/// The text of all lines, in order.
pub fn lines_string(lines: &Vec<RecognizedLine>) -> (r: String)
    ensures
        r@ == lines_text(line_views(lines@)),
{
    let mut parts: Vec<String> = Vec::new();
    let mut i: usize = 0;
    while i < lines.len()
        invariant
            i <= lines.len(),
            string_views(parts@) == line_views(lines@).map_values(|l: LineModel| line_text(l)).take(
                i as int,
            ),
        decreases lines.len() - i,
    {
        let t = line_string(&lines[i]);
        let ghost before = string_views(parts@);
        parts.push(t);
        assert(string_views(parts@) =~= before.push(t@));
        assert(line_views(lines@)[i as int] == lines@[i as int]@);
        assert(string_views(parts@) =~= line_views(lines@).map_values(
            |l: LineModel| line_text(l),
        ).take(i + 1));
        i = i + 1;
    }
    assert(line_views(lines@).map_values(|l: LineModel| line_text(l)).take(lines.len() as int)
        =~= line_views(lines@).map_values(|l: LineModel| line_text(l)));
    join_with_spaces(&parts)
}

/// No word of `s` comes before an earlier one in reading order.
pub open spec fn in_reading_order(s: Seq<WordModel>) -> bool {
    forall|i: int, j: int| 0 <= i < j < s.len() ==> !reads_before(#[trigger] s[j], #[trigger] s[i])
}

/// Any two words of `s` at the same position (top left corner) are the same
/// word.
pub open spec fn positions_distinct(s: Seq<WordModel>) -> bool {
    forall|u: WordModel, v: WordModel|
        #[trigger] s.contains(u) && #[trigger] s.contains(v) && u.2.min == v.2.min ==> u == v
}

proof fn lemma_insert_ordered_multiset(s: Seq<WordModel>, w: WordModel)
    ensures
        insert_ordered(s, w).to_multiset() == s.to_multiset().insert(w),
    decreases s.len(),
{
    broadcast use vstd::seq_lib::to_multiset_build;

    if s.len() == 0 {
        assert(seq![w] =~= s.push(w));
    } else if reads_before(w, s.last()) {
        let t = s.drop_last();
        lemma_insert_ordered_multiset(t, w);
        assert(t.push(s.last()) =~= s);
        assert(insert_ordered(s, w).to_multiset() =~= s.to_multiset().insert(w));
    }
}

proof fn lemma_reading_order_multiset(s: Seq<WordModel>)
    ensures
        reading_order(s).to_multiset() == s.to_multiset(),
    decreases s.len(),
{
    broadcast use vstd::seq_lib::to_multiset_build;

    if s.len() > 0 {
        let t = s.drop_last();
        lemma_reading_order_multiset(t);
        lemma_insert_ordered_multiset(reading_order(t), s.last());
        assert(t.push(s.last()) =~= s);
        assert(t.push(s.last()).to_multiset() == t.to_multiset().insert(s.last()));
    } else {
        assert(s =~= Seq::<WordModel>::empty());
        assert(reading_order(s) =~= Seq::<WordModel>::empty());
    }
}

proof fn lemma_multiset_contains(a: Seq<WordModel>, b: Seq<WordModel>, x: WordModel)
    requires
        a.to_multiset() == b.to_multiset(),
    ensures
        a.contains(x) <==> b.contains(x),
{
    broadcast use vstd::seq_lib::to_multiset_contains;

    assert(a.contains(x) <==> a.to_multiset().count(x) > 0);
    assert(b.contains(x) <==> b.to_multiset().count(x) > 0);
}

proof fn lemma_insert_ordered_sorted(s: Seq<WordModel>, w: WordModel)
    requires
        in_reading_order(s),
    ensures
        in_reading_order(insert_ordered(s, w)),
    decreases s.len(),
{
    broadcast use vstd::seq_lib::to_multiset_build;
    broadcast use vstd::seq_lib::to_multiset_contains;

    if s.len() == 0 {
    } else if reads_before(w, s.last()) {
        let t = s.drop_last();
        let last = s.last();
        assert(in_reading_order(t)) by {
            assert forall|i: int, j: int| 0 <= i < j < t.len() implies !reads_before(
                #[trigger] t[j],
                #[trigger] t[i],
            ) by {
                assert(t[j] == s[j] && t[i] == s[i]);
            }
        }
        lemma_insert_ordered_sorted(t, w);
        lemma_insert_ordered_multiset(t, w);
        let r1 = insert_ordered(t, w);
        let r = r1.push(last);
        assert forall|i: int, j: int| 0 <= i < j < r.len() implies !reads_before(
            #[trigger] r[j],
            #[trigger] r[i],
        ) by {
            if j == r.len() - 1 {
                let x = r1[i];
                assert(r1.contains(x));
                assert(r1.to_multiset().count(x) > 0);
                if x != w {
                    assert(t.to_multiset().count(x) > 0);
                    assert(t.contains(x));
                    let k = choose|k: int| 0 <= k < t.len() && t[k] == x;
                    assert(s[k] == x);
                    assert(!reads_before(s[s.len() - 1], s[k]));
                }
            } else {
                assert(r[j] == r1[j] && r[i] == r1[i]);
            }
        }
    } else {
        let r = s.push(w);
        let last = s.last();
        assert forall|i: int, j: int| 0 <= i < j < r.len() implies !reads_before(
            #[trigger] r[j],
            #[trigger] r[i],
        ) by {
            if j == r.len() - 1 {
                if i < s.len() - 1 {
                    assert(!reads_before(s[s.len() - 1], s[i]));
                }
            } else {
                assert(r[j] == s[j] && r[i] == s[i]);
            }
        }
    }
}

proof fn lemma_reading_order_sorted(s: Seq<WordModel>)
    ensures
        in_reading_order(reading_order(s)),
    decreases s.len(),
{
    if s.len() > 0 {
        lemma_reading_order_sorted(s.drop_last());
        lemma_insert_ordered_sorted(reading_order(s.drop_last()), s.last());
    }
}

proof fn lemma_sorted_unique(a: Seq<WordModel>, b: Seq<WordModel>)
    requires
        in_reading_order(a),
        in_reading_order(b),
        a.to_multiset() == b.to_multiset(),
        positions_distinct(a),
    ensures
        a == b,
    decreases a.len(),
{
    broadcast use vstd::seq_lib::to_multiset_len;
    broadcast use vstd::seq_lib::to_multiset_remove;

    assert(a.len() == b.len()) by {
        assert(a.len() == a.to_multiset().len());
        assert(b.len() == b.to_multiset().len());
    }
    if a.len() == 0 {
        assert(a =~= b);
    } else {
        lemma_multiset_contains(a, b, a[0]);
        lemma_multiset_contains(a, b, b[0]);
        assert(a.contains(a[0]));
        assert(b.contains(b[0]));
        let j = choose|j: int| 0 <= j < b.len() && b[j] == a[0];
        let k = choose|k: int| 0 <= k < a.len() && a[k] == b[0];
        if j > 0 {
            assert(!reads_before(b[j], b[0]));
        }
        if k > 0 {
            assert(!reads_before(a[k], a[0]));
        }
        assert(a[0].2.min == b[0].2.min);
        assert(a[0] == b[0]);
        let a1 = a.drop_first();
        let b1 = b.drop_first();
        assert(a.remove(0) =~= a1);
        assert(b.remove(0) =~= b1);
        assert(a1.to_multiset() == b1.to_multiset());
        assert(in_reading_order(a1)) by {
            assert forall|i: int, j: int| 0 <= i < j < a1.len() implies !reads_before(
                #[trigger] a1[j],
                #[trigger] a1[i],
            ) by {
                assert(a1[j] == a[j + 1] && a1[i] == a[i + 1]);
            }
        }
        assert(in_reading_order(b1)) by {
            assert forall|i: int, j: int| 0 <= i < j < b1.len() implies !reads_before(
                #[trigger] b1[j],
                #[trigger] b1[i],
            ) by {
                assert(b1[j] == b[j + 1] && b1[i] == b[i + 1]);
            }
        }
        assert(positions_distinct(a1)) by {
            assert forall|u: WordModel, v: WordModel|
                #[trigger] a1.contains(u) && #[trigger] a1.contains(v) && u.2.min
                    == v.2.min implies u == v by {
                let iu = choose|i: int| 0 <= i < a1.len() && a1[i] == u;
                let iv = choose|i: int| 0 <= i < a1.len() && a1[i] == v;
                assert(a[iu + 1] == u);
                assert(a[iv + 1] == v);
                assert(a.contains(u));
                assert(a.contains(v));
            }
        }
        lemma_sorted_unique(a1, b1);
        assert(a =~= b) by {
            assert forall|i: int| 0 <= i < a.len() implies a[i] == b[i] by {
                if i > 0 {
                    assert(a[i] == a1[i - 1] && b[i] == b1[i - 1]);
                }
            }
        }
    }
}

/// The lines that a set of words forms do not depend on the order in which
/// the words come, as long as no two different words share a position: the
/// same words in any order give the same lines with the same boxes.
pub proof fn lemma_lines_ignore_input_order(a: Seq<WordModel>, b: Seq<WordModel>)
    requires
        a.to_multiset() == b.to_multiset(),
        positions_distinct(a),
    ensures
        lines_of(a) == lines_of(b),
{
    let ra = reading_order(a);
    let rb = reading_order(b);
    lemma_reading_order_multiset(a);
    lemma_reading_order_multiset(b);
    lemma_reading_order_sorted(a);
    lemma_reading_order_sorted(b);
    assert(positions_distinct(ra)) by {
        assert forall|u: WordModel, v: WordModel|
            #[trigger] ra.contains(u) && #[trigger] ra.contains(v) && u.2.min
                == v.2.min implies u == v by {
            lemma_multiset_contains(ra, a, u);
            lemma_multiset_contains(ra, a, v);
        }
    }
    lemma_sorted_unique(ra, rb);
}

/// Each line's box is the union of the boxes of its words.
pub proof fn lemma_line_boxes_are_unions(words: Seq<WordModel>)
    ensures
        forall|i: int|
            0 <= i < lines_of(words).len() ==> (#[trigger] lines_of(words)[i]).1 == union_of(
                lines_of(words)[i].0,
            ),
{
}

proof fn lemma_groups_cover(s: Seq<WordModel>, x: WordModel)
    requires
        s.contains(x),
    ensures
        exists|k: int| 0 <= k < group_ordered(s).len() && (#[trigger] group_ordered(s)[k]).contains(x),
    decreases s.len(),
{
    let t = s.drop_last();
    let w = s.last();
    let g = group_ordered(t);
    let r = group_ordered(s);
    if t.contains(x) {
        lemma_groups_cover(t, x);
        let k = choose|k: int| 0 <= k < g.len() && (#[trigger] g[k]).contains(x);
        let i = choose|i: int| 0 <= i < g[k].len() && g[k][i] == x;
        if g.len() == 0 {
        } else if continues_line(g.last().last(), w) {
            if k == g.len() - 1 {
                assert(r[k] == g[k].push(w));
                assert(r[k][i] == x);
            } else {
                assert(r[k] == g[k]);
            }
            assert(r[k].contains(x));
        } else {
            assert(r[k] == g[k]);
            assert(r[k].contains(x));
        }
    } else {
        let i = choose|i: int| 0 <= i < s.len() && s[i] == x;
        if i < s.len() - 1 {
            assert(t[i] == x);
        }
        assert(x == w);
        if g.len() == 0 {
            assert(r[0] == seq![w]);
            assert(r[0][0] == x);
        } else if continues_line(g.last().last(), w) {
            let n = g.len() - 1;
            assert(r[n] == g.last().push(w));
            assert(r[n][g.last().len() as int] == x);
        } else {
            assert(r[g.len() as int] == seq![w]);
            assert(r[g.len() as int][0] == x);
        }
    }
}

/// Every word lies in one of the lines that its set of words forms.
pub proof fn lemma_every_word_in_a_line(words: Seq<WordModel>, x: WordModel)
    requires
        words.contains(x),
    ensures
        exists|k: int| 0 <= k < lines_of(words).len() && (#[trigger] lines_of(words)[k]).0.contains(x),
{
    lemma_reading_order_multiset(words);
    lemma_multiset_contains(reading_order(words), words, x);
    lemma_groups_cover(reading_order(words), x);
    let g = group_ordered(reading_order(words));
    let k = choose|k: int| 0 <= k < g.len() && (#[trigger] g[k]).contains(x);
    assert(lines_of(words)[k].0 == g[k]);
}

} // verus!
