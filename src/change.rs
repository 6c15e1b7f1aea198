use vstd::prelude::*;
use vstd::string::StrSliceExecFns;

use crate::error::EditError;
use crate::line_buffer::{texts, LineAwareFile};

verus! {

/// One line-level edit. Its index names a line of the buffer as it stood
/// before any change of its batch was applied.
#[derive(Clone, Debug)]
pub enum Change {
    /// Put `content` as a new line before line `at` (`at == len` appends).
    Insert { at: usize, content: String },
    /// Remove line `at`.
    Delete { at: usize },
    /// Put `content` in place of line `at`.
    Replace { at: usize, content: String },
}

/// A batch of edits, in the order they were given.
pub type Changes = Vec<Change>;

impl Change {
    /// The line this change names.
    pub open spec fn target(self) -> nat {
        match self {
            Change::Insert { at, .. } => at as nat,
            Change::Delete { at } => at as nat,
            Change::Replace { at, .. } => at as nat,
        }
    }

    /// Whether the change names a line of a buffer of `n` lines (or, for an
    /// insert, the end of it).
    pub open spec fn in_range(self, n: nat) -> bool {
        match self {
            Change::Insert { at, .. } => at <= n,
            _ => self.target() < n,
        }
    }

    /// Whether the change carries no line terminator in its content.
    pub open spec fn single_line(self) -> bool {
        match self {
            Change::Insert { content, .. } => !content@.contains('\n'),
            Change::Replace { content, .. } => !content@.contains('\n'),
            Change::Delete { .. } => true,
        }
    }
}

/// Two changes that name one line, where one replaces it and the other deletes
/// or also replaces it.
pub open spec fn conflicts(a: Change, b: Change) -> bool {
    &&& a.target() == b.target()
    &&& !(a is Insert) && !(b is Insert)
    &&& (a is Replace || b is Replace)
}

/// The contents inserted before line `i`, in batch order.
pub open spec fn inserts_at(cs: Seq<Change>, i: nat) -> Seq<Seq<char>>
    decreases cs.len(),
{
    if cs.len() == 0 {
        Seq::<Seq<char>>::empty()
    } else {
        let before = inserts_at(cs.drop_last(), i);
        match cs.last() {
            Change::Insert { at, content } => if at == i {
                before.push(content@)
            } else {
                before
            },
            _ => before,
        }
    }
}

/// Whether some change of the batch deletes line `i`.
pub open spec fn deleted(cs: Seq<Change>, i: nat) -> bool {
    exists|k: int| 0 <= k < cs.len() && cs[k] is Delete && cs[k].target() == i
}

/// The content that the last `Replace` of line `i` puts there, if any.
pub open spec fn replacement(cs: Seq<Change>, i: nat) -> Option<Seq<char>>
    decreases cs.len(),
{
    if cs.len() == 0 {
        None
    } else {
        match cs.last() {
            Change::Replace { at, content } => if at == i {
                Some(content@)
            } else {
                replacement(cs.drop_last(), i)
            },
            _ => replacement(cs.drop_last(), i),
        }
    }
}

/// What stands in place of line `i`, which held `line`: nothing, its
/// replacement, or the line itself.
pub open spec fn line_out(cs: Seq<Change>, i: nat, line: Seq<char>) -> Seq<Seq<char>> {
    if deleted(cs, i) {
        Seq::<Seq<char>>::empty()
    } else {
        match replacement(cs, i) {
            Some(content) => seq![content],
            None => seq![line],
        }
    }
}

/// The output for the first `k` lines: for each, its inserts, then what
/// stands in its place.
pub open spec fn edited(lines: Seq<Seq<char>>, cs: Seq<Change>, k: nat) -> Seq<Seq<char>>
    decreases k,
{
    if k == 0 {
        Seq::<Seq<char>>::empty()
    } else {
        edited(lines, cs, (k - 1) as nat) + inserts_at(cs, (k - 1) as nat) + line_out(
            cs,
            (k - 1) as nat,
            lines[k - 1],
        )
    }
}

/// The lines after the batch: every line with its edits, then the appends.
pub open spec fn applied(lines: Seq<Seq<char>>, cs: Seq<Change>) -> Seq<Seq<char>> {
    edited(lines, cs, lines.len()) + inserts_at(cs, lines.len())
}

/// The outcome of applying the batch `cs` to `lines`: the first failing
/// condition, tested in the order range, content, conflict, or the edited lines.
pub open spec fn apply_result(lines: Seq<Seq<char>>, cs: Seq<Change>) -> Result<
    Seq<Seq<char>>,
    EditError,
> {
    if exists|k: int| 0 <= k < cs.len() && !cs[k].in_range(lines.len()) {
        Err(EditError::LineNotFound)
    } else if exists|k: int| 0 <= k < cs.len() && !cs[k].single_line() {
        Err(EditError::InvalidContent)
    } else if exists|j: int, k: int|
        0 <= j < cs.len() && 0 <= k < cs.len() && j != k && conflicts(cs[j], cs[k]) {
        Err(EditError::ConflictingChange)
    } else {
        Ok(applied(lines, cs))
    }
}

/// A batch that holds a change naming no line of the buffer fails with
/// `LineNotFound`, whatever the other changes are.
pub proof fn lemma_out_of_range_fails(lines: Seq<Seq<char>>, cs: Seq<Change>, k: int)
    requires
        0 <= k < cs.len(),
        !cs[k].in_range(lines.len()),
    ensures
        apply_result(lines, cs) == Err::<Seq<Seq<char>>, EditError>(EditError::LineNotFound),
{
}

/// Deleting and replacing the first line in one batch fails with
/// `ConflictingChange` on every non-empty buffer.
pub proof fn lemma_delete_replace_conflict(lines: Seq<Seq<char>>, cs: Seq<Change>)
    requires
        lines.len() > 0,
        cs.len() == 2,
        cs[0] matches Change::Delete { at } && at == 0,
        cs[1] matches Change::Replace { at, content } && at == 0 && !content@.contains('\n'),
    ensures
        apply_result(lines, cs) == Err::<Seq<Seq<char>>, EditError>(EditError::ConflictingChange),
{
    assert(cs[0].in_range(lines.len()) && cs[1].in_range(lines.len()));
    assert(cs[0].single_line() && cs[1].single_line());
    assert(conflicts(cs[0], cs[1]));
}

/// Whether `s` holds a line terminator.
fn has_terminator(s: &str) -> (r: bool)
    ensures
        r == s@.contains('\n'),
{
    let n = s.unicode_len();
    let mut i: usize = 0;
    while i < n
        invariant
            i <= n,
            n == s@.len(),
            forall|k: int| 0 <= k < i ==> s@[k] != '\n',
        decreases n - i,
    {
        if s.get_char(i) == '\n' {
            return true;
        }
        i = i + 1;
    }
    false
}

/// Whether the two changes conflict.
fn clashes(a: &Change, b: &Change) -> (r: bool)
    ensures
        r == conflicts(*a, *b),
{
    match (a, b) {
        (Change::Delete { at: x }, Change::Replace { at: y, .. }) => *x == *y,
        (Change::Replace { at: x, .. }, Change::Delete { at: y }) => *x == *y,
        (Change::Replace { at: x, .. }, Change::Replace { at: y, .. }) => *x == *y,
        _ => false,
    }
}

/// Appends the contents inserted before line `i`, in batch order.
fn push_inserts(changes: &Vec<Change>, i: usize, out: &mut Vec<String>)
    ensures
        texts(final(out)@) == texts(old(out)@) + inserts_at(changes@, i as nat),
{
    let ghost start = texts(out@);
    let mut j: usize = 0;
    assert(changes@.subrange(0, 0) =~= Seq::<Change>::empty());
    assert(start + Seq::<Seq<char>>::empty() =~= start);
    while j < changes.len()
        invariant
            j <= changes@.len(),
            texts(out@) == start + inserts_at(changes@.subrange(0, j as int), i as nat),
        decreases changes@.len() - j,
    {
        let ghost done = changes@.subrange(0, j as int + 1);
        assert(done.drop_last() =~= changes@.subrange(0, j as int));
        let ghost before = texts(out@);
        match &changes[j] {
            Change::Insert { at, content } => {
                if *at == i {
                    out.push(content.clone());
                    assert(texts(out@) =~= before.push(content@));
                }
            },
            _ => {},
        }
        assert(texts(out@) =~= start + inserts_at(done, i as nat));
        j = j + 1;
    }
    assert(changes@.subrange(0, changes@.len() as int) =~= changes@);
}

/// Appends what stands in place of line `i`, which holds `line`.
fn push_line(changes: &Vec<Change>, i: usize, line: &String, out: &mut Vec<String>)
    ensures
        texts(final(out)@) == texts(old(out)@) + line_out(changes@, i as nat, line@),
{
    let mut gone = false;
    let mut found: Option<usize> = None;
    let mut j: usize = 0;
    while j < changes.len()
        invariant
            j <= changes@.len(),
            gone == deleted(changes@.subrange(0, j as int), i as nat),
            match found {
                Some(k) => k < changes@.len() && (changes@[k as int] matches Change::Replace {
                    content,
                    ..
                } && replacement(changes@.subrange(0, j as int), i as nat) == Some(content@)),
                None => replacement(changes@.subrange(0, j as int), i as nat) is None,
            },
        decreases changes@.len() - j,
    {
        let ghost done = changes@.subrange(0, j as int + 1);
        assert(done.drop_last() =~= changes@.subrange(0, j as int));
        match &changes[j] {
            Change::Delete { at } => {
                if *at == i {
                    gone = true;
                }
            },
            Change::Replace { at, .. } => {
                if *at == i {
                    found = Some(j);
                }
            },
            _ => {},
        }
        proof {
            if deleted(done, i as nat) && !deleted(changes@.subrange(0, j as int), i as nat) {
                let k = choose|k: int|
                    0 <= k < done.len() && done[k] is Delete && done[k].target() == i;
                assert(k == j);
            }
            if deleted(changes@.subrange(0, j as int), i as nat) {
                let k = choose|k: int|
                    0 <= k < j && changes@.subrange(0, j as int)[k] is Delete
                        && changes@.subrange(0, j as int)[k].target() == i;
                assert(done[k] == changes@.subrange(0, j as int)[k]);
            }
        }
        j = j + 1;
    }
    assert(changes@.subrange(0, changes@.len() as int) =~= changes@);
    let ghost before = texts(out@);
    if !gone {
        match found {
            Some(k) => {
                match &changes[k] {
                    Change::Replace { content, .. } => {
                        out.push(content.clone());
                    },
                    _ => {},
                }
            },
            None => {
                out.push(line.clone());
            },
        }
    }
    assert(texts(out@) =~= before + line_out(changes@, i as nat, line@));
}

impl LineAwareFile {
    /// Applies the batch `changes` as a whole: either every change takes
    /// effect and the lines are numbered densely again, or the first failing
    /// condition's error comes back and nothing is changed.
    pub fn apply(&self, changes: &Changes) -> (r: Result<LineAwareFile, EditError>)
        ensures
            match r {
                Ok(b) => apply_result(self@, changes@) == Ok::<Seq<Seq<char>>, EditError>(b@),
                Err(e) => apply_result(self@, changes@) == Err::<Seq<Seq<char>>, EditError>(e),
            },
    {
        let n = self.len();
        let m = changes.len();
        let mut k: usize = 0;
        while k < m
            invariant
                k <= m,
                m == changes@.len(),
                n == self@.len(),
                forall|q: int| 0 <= q < k ==> changes@[q].in_range(n as nat),
            decreases m - k,
        {
            let fits = match &changes[k] {
                Change::Insert { at, .. } => *at <= n,
                Change::Delete { at } => *at < n,
                Change::Replace { at, .. } => *at < n,
            };
            if !fits {
                return Err(EditError::LineNotFound);
            }
            k = k + 1;
        }
        k = 0;
        while k < m
            invariant
                k <= m,
                m == changes@.len(),
                n == self@.len(),
                forall|q: int| 0 <= q < m ==> changes@[q].in_range(n as nat),
                forall|q: int| 0 <= q < k ==> changes@[q].single_line(),
            decreases m - k,
        {
            let multi = match &changes[k] {
                Change::Insert { content, .. } => has_terminator(content.as_str()),
                Change::Replace { content, .. } => has_terminator(content.as_str()),
                Change::Delete { .. } => false,
            };
            if multi {
                assert(!changes@[k as int].single_line());
                return Err(EditError::InvalidContent);
            }
            k = k + 1;
        }
        k = 0;
        while k < m
            invariant
                k <= m,
                m == changes@.len(),
                n == self@.len(),
                forall|q: int| 0 <= q < m ==> changes@[q].in_range(n as nat),
                forall|q: int| 0 <= q < m ==> changes@[q].single_line(),
                forall|p: int, q: int|
                    0 <= p < k && 0 <= q < m && p != q ==> !conflicts(changes@[p], changes@[q]),
            decreases m - k,
        {
            let mut q: usize = 0;
            while q < m
                invariant
                    k < m,
                    q <= m,
                    m == changes@.len(),
                    n == self@.len(),
                    forall|q: int| 0 <= q < m ==> changes@[q].in_range(n as nat),
                    forall|q: int| 0 <= q < m ==> changes@[q].single_line(),
                    forall|p: int, q: int|
                        0 <= p < k && 0 <= q < m && p != q ==> !conflicts(changes@[p], changes@[q]),
                    forall|q2: int| 0 <= q2 < q && k != q2 ==> !conflicts(changes@[k as int], changes@[q2]),
                decreases m - q,
            {
                if q != k && clashes(&changes[k], &changes[q]) {
                    assert(conflicts(changes@[k as int], changes@[q as int]));
                    return Err(EditError::ConflictingChange);
                }
                q = q + 1;
            }
            k = k + 1;
        }
        assert(apply_result(self@, changes@) == Ok::<Seq<Seq<char>>, EditError>(
            applied(self@, changes@),
        ));
        let mut out: Vec<String> = Vec::new();
        let mut i: usize = 0;
        assert(texts(out@) =~= Seq::<Seq<char>>::empty());
        while i < n
            invariant
                i <= n,
                n == self@.len(),
                texts(out@) == edited(self@, changes@, i as nat),
            decreases n - i,
        {
            push_inserts(changes, i, &mut out);
            push_line(changes, i, &self.contents[i], &mut out);
            i = i + 1;
        }
        push_inserts(changes, n, &mut out);
        Ok(LineAwareFile::from_lines(out))
    }
}

} // verus!
