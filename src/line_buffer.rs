use vstd::prelude::*;
use vstd::string::{StrSliceExecFns, StringExecFns};

use crate::error::EditError;

verus! {

/// The lines of `s`: its pieces between line terminators, in order. A text
/// with `k` terminators has `k + 1` lines; the empty text has one, empty line.
pub open spec fn split_lines(s: Seq<char>) -> Seq<Seq<char>>
    decreases s.len(),
{
    if s.len() == 0 {
        seq![Seq::<char>::empty()]
    } else {
        let rest = split_lines(s.drop_last());
        if s.last() == '\n' {
            rest.push(Seq::<char>::empty())
        } else {
            rest.update(rest.len() - 1, rest.last().push(s.last()))
        }
    }
}

/// The lines joined by single line terminators, with none after the last.
pub open spec fn join_lines(lines: Seq<Seq<char>>) -> Seq<char>
    decreases lines.len(),
{
    if lines.len() == 0 {
        Seq::<char>::empty()
    } else if lines.len() == 1 {
        lines[0]
    } else {
        join_lines(lines.drop_last()) + seq!['\n'] + lines.last()
    }
}

/// Every text has at least one line.
pub proof fn lemma_split_nonempty(s: Seq<char>)
    ensures
        split_lines(s).len() >= 1,
    decreases s.len(),
{
    if s.len() > 0 {
        lemma_split_nonempty(s.drop_last());
    }
}

/// Extending the last line by a character extends the joined text by it.
proof fn lemma_join_extend_last(lines: Seq<Seq<char>>, c: char)
    requires
        lines.len() >= 1,
    ensures
        join_lines(lines.update(lines.len() - 1, lines.last().push(c))) == join_lines(lines).push(c),
{
    let grown = lines.update(lines.len() - 1, lines.last().push(c));
    if lines.len() > 1 {
        assert(grown.drop_last() =~= lines.drop_last());
        assert(join_lines(grown) =~= join_lines(lines).push(c));
    }
}

/// Parsing a text and serializing the lines gives the text back.
pub proof fn lemma_round_trip(s: Seq<char>)
    ensures
        join_lines(split_lines(s)) == s,
    decreases s.len(),
{
    if s.len() > 0 {
        let rest = split_lines(s.drop_last());
        lemma_round_trip(s.drop_last());
        lemma_split_nonempty(s.drop_last());
        if s.last() == '\n' {
            assert(rest.push(Seq::<char>::empty()).drop_last() =~= rest);
            assert(join_lines(split_lines(s)) =~= s);
        } else {
            lemma_join_extend_last(rest, s.last());
            assert(s.drop_last().push(s.last()) =~= s);
        }
    }
}

/// The character sequences of a run of strings.
pub open spec fn texts(v: Seq<String>) -> Seq<Seq<char>> {
    v.map_values(|s: String| s@)
}

/// A text without terminators is one line.
proof fn lemma_split_single(t: Seq<char>)
    requires
        !t.contains('\n'),
    ensures
        split_lines(t) == seq![t],
    decreases t.len(),
{
    if t.len() > 0 {
        assert(!t.drop_last().contains('\n')) by {
            if t.drop_last().contains('\n') {
                let k = choose|k: int| 0 <= k < t.drop_last().len() && t.drop_last()[k] == '\n';
                assert(t[k] == '\n');
            }
        }
        lemma_split_single(t.drop_last());
        assert(t[t.len() - 1] != '\n');
        assert(t.drop_last().push(t.last()) =~= t);
        assert(split_lines(t) =~= seq![t]);
    } else {
        assert(t =~= Seq::<char>::empty());
    }
}

/// Splitting at a terminator splits the two sides apart.
proof fn lemma_split_concat(s: Seq<char>, t: Seq<char>)
    ensures
        split_lines(s + seq!['\n'] + t) == split_lines(s) + split_lines(t),
    decreases t.len(),
{
    let whole = s + seq!['\n'] + t;
    if t.len() == 0 {
        assert(whole.drop_last() =~= s);
        assert(split_lines(whole) =~= split_lines(s) + split_lines(t));
    } else {
        lemma_split_concat(s, t.drop_last());
        lemma_split_nonempty(t.drop_last());
        assert(whole.drop_last() =~= s + seq!['\n'] + t.drop_last());
        assert(whole.last() == t.last());
        assert(split_lines(whole) =~= split_lines(s) + split_lines(t));
    }
}

/// Serializing lines without terminators in them and parsing the text gives
/// the lines back.
pub proof fn lemma_lines_round_trip(lines: Seq<Seq<char>>)
    requires
        lines.len() >= 1,
        forall|i: int| 0 <= i < lines.len() ==> !lines[i].contains('\n'),
    ensures
        split_lines(join_lines(lines)) == lines,
    decreases lines.len(),
{
    if lines.len() == 1 {
        lemma_split_single(lines[0]);
        assert(lines =~= seq![lines[0]]);
    } else {
        lemma_lines_round_trip(lines.drop_last());
        lemma_split_concat(join_lines(lines.drop_last()), lines.last());
        lemma_split_single(lines.last());
        assert(lines.drop_last() + seq![lines.last()] =~= lines);
    }
}

/// A text held as its lines, numbered densely from zero.
#[derive(Clone, Debug)]
pub struct LineAwareFile {
    pub contents: Vec<String>,
}

impl View for LineAwareFile {
    type V = Seq<Seq<char>>;

    open spec fn view(&self) -> Seq<Seq<char>> {
        texts(self.contents@)
    }
}

impl LineAwareFile {
    /// The buffer seen as a map from line number to line.
    pub open spec fn index_map(&self) -> Map<nat, Seq<char>> {
        Map::new(|i: nat| i < self@.len(), |i: nat| self@[i as int])
    }

    /// Dense numbering: the line numbers of a buffer are exactly `0..len`,
    /// and number `i` holds line `i`.
    pub proof fn lemma_dense_indexing(&self)
        ensures
            self.index_map().dom() == Set::new(|i: nat| i < self@.len()),
            forall|i: nat| i < self@.len() ==> self.index_map()[i] == self@[i as int],
    {
        assert(self.index_map().dom() =~= Set::new(|i: nat| i < self@.len()));
    }

    /// A buffer without lines.
    pub fn new() -> (r: LineAwareFile)
        ensures
            r@ == Seq::<Seq<char>>::empty(),
    {
        let r = LineAwareFile { contents: Vec::new() };
        assert(r@ =~= Seq::<Seq<char>>::empty());
        r
    }

    /// A buffer whose line `i` is `lines[i]`.
    pub fn from_lines(lines: Vec<String>) -> (r: LineAwareFile)
        ensures
            r@ == texts(lines@),
    {
        LineAwareFile { contents: lines }
    }

    /// The buffer of the lines of `text`.
    pub fn parse(text: &str) -> (r: LineAwareFile)
        ensures
            r@ == split_lines(text@),
    {
        let n = text.unicode_len();
        let mut lines: Vec<String> = Vec::new();
        let mut start: usize = 0;
        let mut i: usize = 0;
        assert(texts(lines@) =~= Seq::<Seq<char>>::empty());
        assert(text@.subrange(0, 0) =~= Seq::<char>::empty());
        assert(Seq::<Seq<char>>::empty().push(Seq::<char>::empty()) =~= split_lines(
            Seq::<char>::empty(),
        ));
        while i < n
            invariant
                start <= i <= n,
                n == text@.len(),
                texts(lines@).push(text@.subrange(start as int, i as int))
                    == split_lines(text@.subrange(0, i as int)),
            decreases n - i,
        {
            let c = text.get_char(i);
            let ghost before = texts(lines@);
            let ghost prefix = text@.subrange(0, i as int + 1);
            assert(prefix.drop_last() =~= text@.subrange(0, i as int));
            assert(prefix.last() == c);
            if c == '\n' {
                let piece = text.substring_char(start, i);
                lines.push(String::from_str(piece));
                start = i + 1;
                assert(texts(lines@) =~= before.push(piece@));
                assert(text@.subrange(start as int, i as int + 1) =~= Seq::<char>::empty());
            } else {
                assert(text@.subrange(start as int, i as int + 1) =~= text@.subrange(
                    start as int,
                    i as int,
                ).push(c));
                assert(before.push(text@.subrange(start as int, i as int + 1)) =~= before.push(
                    text@.subrange(start as int, i as int),
                ).update(before.len() as int, text@.subrange(start as int, i as int).push(c)));
            }
            i = i + 1;
        }
        let piece = text.substring_char(start, n);
        let ghost before = texts(lines@);
        lines.push(String::from_str(piece));
        assert(texts(lines@) =~= before.push(piece@));
        assert(text@.subrange(0, n as int) =~= text@);
        LineAwareFile { contents: lines }
    }

    /// The lines in order, joined by line terminators, with none after the last.
    pub fn to_text(&self) -> (r: String)
        ensures
            r@ == join_lines(self@),
    {
        let mut r = String::new();
        let mut i: usize = 0;
        while i < self.contents.len()
            invariant
                i <= self@.len(),
                r@ == join_lines(self@.subrange(0, i as int)),
            decreases self@.len() - i,
        {
            proof {
                reveal_strlit("\n");
            }
            let ghost head = self@.subrange(0, i as int + 1);
            assert(head.drop_last() =~= self@.subrange(0, i as int));
            if i > 0 {
                r.append("\n");
            }
            r.append(self.contents[i].as_str());
            assert(r@ =~= join_lines(head));
            i = i + 1;
        }
        assert(self@.subrange(0, self@.len() as int) =~= self@);
        r
    }

    /// The number of lines.
    pub fn len(&self) -> (r: usize)
        ensures
            r == self@.len(),
    {
        self.contents.len()
    }

    /// Line `index`, or `LineNotFound` where there is none.
    pub fn get(&self, index: usize) -> (r: Result<&String, EditError>)
        ensures
            index < self@.len() ==> (r matches Ok(line) && line@ == self@[index as int]),
            index >= self@.len() ==> r == Err::<&String, EditError>(EditError::LineNotFound),
    {
        if index < self.contents.len() {
            Ok(&self.contents[index])
        } else {
            Err(EditError::LineNotFound)
        }
    }
}

} // verus!
