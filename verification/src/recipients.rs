//! The list of recipients as it is kept in the recipients file: one
//! fingerprint to a line, in ascending order, none of them twice.

use crate::error::lines_text;
use crate::text::{
    lemma_text_lt_strict_total_order, str_eq, str_lt, text_lt, texts,
};
use vstd::prelude::*;
use vstd::string::*;

pub mod change;

verus! {

/// Whether each text comes before all that follow it.
pub open spec fn strictly_sorted(s: Seq<Seq<char>>) -> bool {
    forall|i: int, j: int| 0 <= i < j < s.len() ==> text_lt(#[trigger] s[i], #[trigger] s[j])
}

/// Whether `normal` is `list` put in order, with each text kept once.
pub open spec fn is_normal_form_of(normal: Seq<Seq<char>>, list: Seq<Seq<char>>) -> bool {
    strictly_sorted(normal) && normal.to_set() == list.to_set()
}

/// A list put in order, with each text kept once.
pub open spec fn normal_form(list: Seq<Seq<char>>) -> Seq<Seq<char>> {
    choose|normal: Seq<Seq<char>>| is_normal_form_of(normal, list)
}

/// A list has one normal form only.
pub proof fn lemma_normal_form_unique(a: Seq<Seq<char>>, b: Seq<Seq<char>>)
    requires
        strictly_sorted(a),
        strictly_sorted(b),
        a.to_set() == b.to_set(),
    ensures
        a == b,
    decreases a.len(),
{
    if a.len() == 0 {
        if b.len() > 0 {
            assert(b.to_set().contains(b[0]));
            assert(a.contains(b[0]));
        }
        assert(a =~= b);
    } else if b.len() == 0 {
        assert(a.to_set().contains(a[0]));
        assert(b.contains(a[0]));
    } else {
        assert(a.to_set().contains(a[0]));
        assert(b.contains(a[0]));
        let k = choose|k: int| 0 <= k < b.len() && b[k] == a[0];
        assert(b.to_set().contains(b[0]));
        assert(a.contains(b[0]));
        let m = choose|m: int| 0 <= m < a.len() && a[m] == b[0];
        lemma_text_lt_strict_total_order(a[0], b[0], a[0]);
        assert(a[0] == b[0]);
        let ta = a.drop_first();
        let tb = b.drop_first();
        assert forall|x: Seq<char>| ta.to_set().contains(x) == tb.to_set().contains(x) by {
            lemma_text_lt_strict_total_order(x, x, x);
            if ta.contains(x) {
                let i = choose|i: int| 0 <= i < ta.len() && ta[i] == x;
                assert(a[i + 1] == x);
                assert(a.to_set().contains(x));
                assert(b.contains(x));
                let j = choose|j: int| 0 <= j < b.len() && b[j] == x;
                assert(text_lt(a[0], a[i + 1]));
                assert(j > 0);
                assert(tb[j - 1] == x);
            }
            if tb.contains(x) {
                let i = choose|i: int| 0 <= i < tb.len() && tb[i] == x;
                assert(b[i + 1] == x);
                assert(b.to_set().contains(x));
                assert(a.contains(x));
                let j = choose|j: int| 0 <= j < a.len() && a[j] == x;
                assert(text_lt(b[0], b[i + 1]));
                assert(j > 0);
                assert(ta[j - 1] == x);
            }
        }
        assert(ta.to_set() =~= tb.to_set());
        assert forall|i: int, j: int| 0 <= i < j < ta.len() implies text_lt(
            #[trigger] ta[i],
            #[trigger] ta[j],
        ) by {
            assert(text_lt(a[i + 1], a[j + 1]));
        }
        assert forall|i: int, j: int| 0 <= i < j < tb.len() implies text_lt(
            #[trigger] tb[i],
            #[trigger] tb[j],
        ) by {
            assert(text_lt(b[i + 1], b[j + 1]));
        }
        lemma_normal_form_unique(ta, tb);
        assert(a =~= seq![a[0]] + ta);
        assert(b =~= seq![b[0]] + tb);
    }
}

/// What is in normal form and holds the texts of a list is the normal
/// form of that list.
pub proof fn lemma_is_normal_form(normal: Seq<Seq<char>>, list: Seq<Seq<char>>)
    requires
        is_normal_form_of(normal, list),
    ensures
        normal == normal_form(list),
{
    lemma_normal_form_unique(normal, normal_form(list));
}

/// Puts one more recipient into a list that is in order: at its place,
/// unless the list holds it already.
pub fn insert_recipient(list: &mut Vec<String>, item: String)
    requires
        strictly_sorted(texts(old(list)@)),
    ensures
        strictly_sorted(texts(final(list)@)),
        texts(final(list)@).to_set() == texts(old(list)@).to_set().insert(item@),
{
    let ghost before = texts(list@);
    let mut i: usize = 0;
    while i < list.len() && str_lt(list[i].as_str(), item.as_str())
        invariant
            i <= list.len(),
            texts(list@) == before,
            forall|j: int| 0 <= j < i ==> text_lt(#[trigger] before[j], item@),
        decreases list.len() - i,
    {
        i += 1;
    }
    if i < list.len() && str_eq(list[i].as_str(), item.as_str()) {
        proof {
            assert(before[i as int] == item@);
            assert(before.to_set().contains(item@));
            assert(before.to_set() =~= before.to_set().insert(item@));
        }
    } else {
        list.insert(i, item);
        proof {
            let after = texts(list@);
            assert(after =~= before.insert(i as int, item@));
            assert forall|a: int, b: int| 0 <= a < b < after.len() implies text_lt(
                #[trigger] after[a],
                #[trigger] after[b],
            ) by {
                if b < i {
                    assert(after[a] == before[a] && after[b] == before[b]);
                } else if b == i {
                    assert(after[a] == before[a]);
                } else if a < i {
                    assert(after[a] == before[a] && after[b] == before[b - 1]);
                    if b - 1 == a {
                    }
                } else if a == i {
                    lemma_text_lt_strict_total_order(item@, before[i as int], before[b - 1]);
                    lemma_text_lt_strict_total_order(before[i as int], item@, item@);
                    assert(text_lt(item@, before[i as int]));
                    if b - 1 > i {
                        assert(text_lt(before[i as int], before[b - 1]));
                    }
                } else {
                    assert(after[a] == before[a - 1] && after[b] == before[b - 1]);
                }
            }
            assert forall|x: Seq<char>| after.to_set().contains(x) == before.to_set().insert(
                item@,
            ).contains(x) by {
                if after.contains(x) {
                    let k = choose|k: int| 0 <= k < after.len() && after[k] == x;
                    if k < i {
                        assert(before[k] == x);
                    } else if k > i {
                        assert(before[k - 1] == x);
                    }
                }
                if before.contains(x) {
                    let k = choose|k: int| 0 <= k < before.len() && before[k] == x;
                    if k < i {
                        assert(after[k] == x);
                    } else {
                        assert(after[k + 1] == x);
                    }
                }
                if x == item@ {
                    assert(after[i as int] == x);
                }
            }
            assert(after.to_set() =~= before.to_set().insert(item@));
        }
    }
}

/// Puts a list of recipients in order and keeps each of them once.
pub fn normalize_recipients(list: &Vec<String>) -> (r: Vec<String>)
    ensures
        texts(r@) == normal_form(texts(list@)),
        is_normal_form_of(texts(r@), texts(list@)),
{
    let mut r: Vec<String> = Vec::new();
    let mut i: usize = 0;
    proof {
        assert(texts(r@).to_set() =~= texts(list@.take(0)).to_set());
    }
    while i < list.len()
        invariant
            i <= list.len(),
            strictly_sorted(texts(r@)),
            texts(r@).to_set() == texts(list@.take(i as int)).to_set(),
        decreases list.len() - i,
    {
        proof {
            let head = texts(list@.take(i as int));
            assert(texts(list@.take(i + 1)) =~= head.push(list@[i as int]@));
            head.lemma_push_to_set_commute(list@[i as int]@);
        }
        insert_recipient(&mut r, list[i].clone());
        i += 1;
    }
    proof {
        assert(list@.take(list.len() as int) =~= list@);
        lemma_is_normal_form(texts(r@), texts(list@));
    }
    r
}

/// A list of texts, one to a line.
pub fn lines_of(list: &Vec<String>) -> (r: String)
    ensures
        r@ == lines_text(texts(list@)),
{
    let ghost lines = texts(list@);
    let mut r = String::new();
    let mut i: usize = 0;
    while i < list.len()
        invariant
            i <= list.len(),
            lines == texts(list@),
            r@ == lines_text(lines.take(i as int)),
        decreases list.len() - i,
    {
        proof {
            assert(lines.take(i + 1).drop_last() =~= lines.take(i as int));
            assert(lines.take(i + 1).last() == list@[i as int]@);
        }
        r.append(list[i].as_str());
        r.append("\n");
        i += 1;
    }
    proof {
        assert(lines.take(list.len() as int) =~= lines);
    }
    r
}

/// The recipients file for a list of recipients: the list in normal form,
/// one recipient to a line.
pub fn recipients_file(list: &Vec<String>) -> (r: String)
    ensures
        r@ == lines_text(normal_form(texts(list@))),
{
    let normal = normalize_recipients(list);
    lines_of(&normal)
}

/// Where the first line break stands in a text that holds one.
pub open spec fn first_break(text: Seq<char>) -> int {
    choose|at: int|
        0 <= at < text.len() && text[at] == '\n' && forall|i: int| 0 <= i < at ==> text[i] != '\n'
}

/// The lines of a text that are not empty, in their order. A line ends
/// at a line break or at the end of the text.
#[verifier::opaque]
pub open spec fn lines_of_text(text: Seq<char>) -> Seq<Seq<char>>
    decreases text.len(),
{
    if text.len() == 0 {
        Seq::empty()
    } else if !text.contains('\n') {
        seq![text]
    } else {
        let at = first_break(text);
        if 0 <= at < text.len() {
            let rest = lines_of_text(text.skip(at + 1));
            if at == 0 {
                rest
            } else {
                seq![text.take(at)] + rest
            }
        } else {
            Seq::empty()
        }
    }
}

/// The place of the first line break in `text` from `from` on, or the
/// length of `text` where there is none.
fn next_break(text: &str, from: usize) -> (at: usize)
    requires
        from <= text@.len(),
    ensures
        from <= at <= text@.len(),
        forall|i: int| from <= i < at ==> text@[i] != '\n',
        at < text@.len() ==> text@[at as int] == '\n',
{
    let n = text.unicode_len();
    let mut at = from;
    while at < n
        invariant
            n == text@.len(),
            from <= at <= n,
            forall|i: int| from <= i < at ==> text@[i] != '\n',
        decreases n - at,
    {
        if text.get_char(at) == '\n' {
            return at;
        }
        at += 1;
    }
    at
}

/// The lines of a text, given where its first line ends: that line,
/// unless it is empty, and the lines of what follows the line break.
pub proof fn lemma_first_line(text: Seq<char>, end: int)
    requires
        text.len() > 0,
        0 <= end <= text.len(),
        forall|i: int| 0 <= i < end ==> text[i] != '\n',
        end < text.len() ==> text[end] == '\n',
    ensures
        lines_of_text(text) == (if end == 0 {
            Seq::<Seq<char>>::empty()
        } else {
            seq![text.take(end)]
        }) + (if end < text.len() {
            lines_of_text(text.skip(end + 1))
        } else {
            Seq::<Seq<char>>::empty()
        }),
{
    reveal(lines_of_text);
    if end < text.len() {
        assert(text.contains('\n'));
        let first = first_break(text);
        assert(0 <= first < text.len() && text[first] == '\n' && forall|i: int|
            0 <= i < first ==> text[i] != '\n');
        assert(first == end);
        let rest = lines_of_text(text.skip(end + 1));
        if end == 0 {
            assert(Seq::<Seq<char>>::empty() + rest =~= rest);
        }
    } else {
        if text.contains('\n') {
            let i = choose|i: int| 0 <= i < text.len() && text[i] == '\n';
            assert(text[i] != '\n');
        }
        assert(text.take(end) =~= text);
        assert(seq![text] + Seq::<Seq<char>>::empty() =~= seq![text]);
    }
}

/// The recipients that a recipients file lists: its lines that are not
/// empty.
pub fn parse_recipients(text: &str) -> (r: Vec<String>)
    ensures
        texts(r@) == lines_of_text(text@),
{
    let n = text.unicode_len();
    let mut r: Vec<String> = Vec::new();
    let mut from: usize = 0;
    proof {
        assert(text@.skip(0) =~= text@);
        assert(texts(r@) + lines_of_text(text@.skip(0)) =~= lines_of_text(text@));
    }
    while from < n
        invariant
            n == text@.len(),
            from <= n,
            texts(r@) + lines_of_text(text@.skip(from as int)) == lines_of_text(text@),
        decreases n - from,
    {
        let at = next_break(text, from);
        let ghost tail = text@.skip(from as int);
        let ghost before = texts(r@);
        let ghost line = text@.subrange(from as int, at as int);
        let ghost rest = if at < n {
            lines_of_text(text@.skip(at + 1))
        } else {
            Seq::<Seq<char>>::empty()
        };
        proof {
            assert forall|i: int| 0 <= i < at - from implies tail[i] != '\n' by {
                assert(tail[i] == text@[i + from]);
            }
            lemma_first_line(tail, at - from);
            assert(tail.take(at - from) =~= line);
            if at < n {
                assert(tail.skip(at - from + 1) =~= text@.skip(at + 1));
            }
        }
        if at > from {
            r.push(text.substring_char(from, at).to_owned());
            proof {
                assert(texts(r@) =~= before.push(line));
                assert(before.push(line) + rest =~= before + (seq![line] + rest));
            }
        } else {
            proof {
                assert(before + (Seq::<Seq<char>>::empty() + rest) =~= before + rest);
            }
        }
        if at < n {
            from = at + 1;
        } else {
            from = n;
            proof {
                reveal(lines_of_text);
                assert(text@.skip(n as int) =~= Seq::<char>::empty());
            }
        }
        proof {
            assert(lines_of_text(text@.skip(from as int)) =~= rest);
            assert(before + lines_of_text(tail) == lines_of_text(text@));
            assert(texts(r@) + rest =~= before + lines_of_text(tail));
        }
    }
    proof {
        reveal(lines_of_text);
        assert(text@.skip(n as int) =~= Seq::<char>::empty());
        assert(texts(r@) + Seq::<Seq<char>>::empty() =~= texts(r@));
    }
    r
}

/// A text that holds a line break holds a first one.
pub proof fn lemma_first_break(text: Seq<char>, at: int)
    requires
        0 <= at < text.len(),
        text[at] == '\n',
    ensures
        0 <= first_break(text) <= at,
        text[first_break(text)] == '\n',
        forall|i: int| 0 <= i < first_break(text) ==> text[i] != '\n',
    decreases at,
{
    if exists|j: int| 0 <= j < at && text[j] == '\n' {
        let j = choose|j: int| 0 <= j < at && text[j] == '\n';
        lemma_first_break(text, j);
    } else {
        assert(0 <= at < text.len() && text[at] == '\n' && forall|i: int|
            0 <= i < at ==> text[i] != '\n');
        let first = first_break(text);
        if first > at {
            assert(text[at] != '\n');
        }
    }
}

/// Whether a text is empty or ends with a line break.
pub open spec fn is_terminated(text: Seq<char>) -> bool {
    text.len() == 0 || text.last() == '\n'
}

/// The lines of two texts in a row are those of the first, then those of
/// the second, where the first ends with a line break.
pub proof fn lemma_lines_of_texts_in_a_row(a: Seq<char>, b: Seq<char>)
    requires
        is_terminated(a),
    ensures
        lines_of_text(a + b) == lines_of_text(a) + lines_of_text(b),
    decreases a.len(),
{
    if a.len() == 0 {
        reveal(lines_of_text);
        assert(a + b =~= b);
        assert(lines_of_text(a) + lines_of_text(b) =~= lines_of_text(b));
    } else {
        assert(a[a.len() - 1] == '\n');
        lemma_first_break(a, a.len() - 1);
        let end = first_break(a);
        let whole = a + b;
        assert forall|i: int| 0 <= i < end implies whole[i] != '\n' by {
            assert(whole[i] == a[i]);
        }
        assert(whole[end] == a[end]);
        lemma_first_line(a, end);
        lemma_first_line(whole, end);
        let rest = a.skip(end + 1);
        assert(whole.skip(end + 1) =~= rest + b);
        assert(whole.take(end) =~= a.take(end));
        if rest.len() > 0 {
            assert(rest.last() == a.last());
        }
        lemma_lines_of_texts_in_a_row(rest, b);
        let first = if end == 0 {
            Seq::<Seq<char>>::empty()
        } else {
            seq![a.take(end)]
        };
        assert(first + (lines_of_text(rest) + lines_of_text(b)) =~= (first + lines_of_text(rest))
            + lines_of_text(b));
    }
}

/// A text without line breaks, followed by one, is one line.
pub proof fn lemma_one_line(line: Seq<char>)
    requires
        line.len() > 0,
        !line.contains('\n'),
    ensures
        lines_of_text(line + "\n"@) == seq![line],
        is_terminated(line + "\n"@),
        (line + "\n"@).len() > 0,
{
    reveal_strlit("\n");
    let ended = line + "\n"@;
    let n = line.len() as int;
    assert(ended.len() == n + 1);
    assert forall|i: int| 0 <= i < n implies ended[i] != '\n' by {
        if ended[i] == '\n' {
            assert(line[i] == '\n');
        }
    }
    assert(ended[n] == '\n');
    lemma_first_line(ended, n);
    assert(ended.take(n) =~= line);
    assert(ended.skip(n + 1) =~= Seq::<char>::empty());
    assert(lines_of_text(Seq::<char>::empty()) =~= Seq::<Seq<char>>::empty()) by {
        reveal(lines_of_text);
    }
    assert(seq![line] + Seq::<Seq<char>>::empty() =~= seq![line]);
}

/// What is written to the recipients file is read back as it was: the
/// lines of a list of texts written one to a line are those texts, where
/// none of them is empty or holds a line break.
pub proof fn lemma_lines_read_back(list: Seq<Seq<char>>)
    requires
        forall|i: int| 0 <= i < list.len() ==> list[i].len() > 0 && !list[i].contains('\n'),
    ensures
        lines_of_text(lines_text(list)) == list,
        is_terminated(lines_text(list)),
    decreases list.len(),
{
    if list.len() == 0 {
        assert(lines_text(list) =~= Seq::<char>::empty());
        assert(lines_of_text(Seq::<char>::empty()) =~= Seq::<Seq<char>>::empty()) by {
            reveal(lines_of_text);
        }
    } else {
        let head = list.drop_last();
        let line = list.last();
        assert forall|i: int| 0 <= i < head.len() implies head[i].len() > 0 && !head[i].contains(
            '\n',
        ) by {
            assert(head[i] == list[i]);
        }
        lemma_lines_read_back(head);
        lemma_one_line(line);
        let ended = line + "\n"@;
        assert(lines_text(list) == lines_text(head) + line + "\n"@);
        assert(lines_text(head) + line + "\n"@ =~= lines_text(head) + ended);
        lemma_lines_of_texts_in_a_row(lines_text(head), ended);
        assert(head + seq![line] =~= list);
        assert((lines_text(head) + ended).last() == ended.last());
    }
}

/// The texts of `list` that are not among `removed`.
pub open spec fn without(list: Seq<Seq<char>>, removed: Seq<Seq<char>>) -> Seq<Seq<char>> {
    list.filter(|text: Seq<char>| !removed.contains(text))
}

/// Whether `text` is one of `list`.
fn holds(list: &Vec<String>, text: &str) -> (r: bool)
    ensures
        r == texts(list@).contains(text@),
{
    let mut i: usize = 0;
    while i < list.len()
        invariant
            i <= list.len(),
            forall|j: int| 0 <= j < i ==> texts(list@)[j] != text@,
        decreases list.len() - i,
    {
        if str_eq(list[i].as_str(), text) {
            assert(texts(list@)[i as int] == text@);
            return true;
        }
        i += 1;
    }
    false
}

/// The recipients of `list` without those of `removed`, in normal form.
pub fn without_recipients(list: &Vec<String>, removed: &Vec<String>) -> (r: Vec<String>)
    ensures
        is_normal_form_of(texts(r@), without(texts(list@), texts(removed@))),
        texts(r@) == normal_form(without(texts(list@), texts(removed@))),
{
    let mut kept: Vec<String> = Vec::new();
    let mut i: usize = 0;
    let ghost gone = texts(removed@);
    let ghost keep = |text: Seq<char>| !gone.contains(text);
    proof {
        reveal(Seq::filter);
        assert(texts(list@.take(0)) =~= Seq::<Seq<char>>::empty());
        assert(texts(kept@) =~= texts(list@.take(0)).filter(keep));
    }
    while i < list.len()
        invariant
            i <= list.len(),
            gone == texts(removed@),
            keep == (|text: Seq<char>| !gone.contains(text)),
            texts(kept@) == texts(list@.take(i as int)).filter(keep),
        decreases list.len() - i,
    {
        let ghost before = kept@;
        proof {
            let head = texts(list@.take(i as int));
            assert(texts(list@.take(i + 1)) =~= head.push(list@[i as int]@));
            head.lemma_filter_push(list@[i as int]@, keep);
        }
        if !holds(removed, list[i].as_str()) {
            kept.push(list[i].clone());
            proof {
                assert(texts(kept@) =~= texts(before).push(list@[i as int]@));
            }
        }
        i += 1;
    }
    proof {
        assert(list@.take(list.len() as int) =~= list@);
    }
    normalize_recipients(&kept)
}

} // verus!
