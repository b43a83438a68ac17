//! Fixed text lines (title and explanation) drawn once per tick at a fixed
//! screen position.

use vstd::prelude::*;
use vstd::string::StringExecFns;
use crate::controller::{is_nop, EventContext, UpdateResult};
use crate::entity::{Entity, Named};
use crate::input::InputEvent;
use crate::terminal::{
    cursor_neutral, term_move_to, term_print, DrawContext, TermError, TermOp,
};

verus! {

/// The screen row `i` lines below `row`, capped below the last addressable
/// row.
pub open spec fn row_at(row: u16, i: int) -> u16 {
    if row + i < u16::MAX {
        (row + i) as u16
    } else {
        (u16::MAX - 1) as u16
    }
}

/// The screen row `i` lines below `row`, capped below the last addressable
/// row.
pub fn row_at_exec(row: u16, i: usize) -> (r: u16)
    ensures
        r == row_at(row, i as int),
        r < u16::MAX,
{
    if i < (u16::MAX - row) as usize {
        row + (i as u16)
    } else {
        u16::MAX - 1
    }
}

/// The operations that draw the lines from index `i` on: move to each line's
/// row, then print it.
pub open spec fn lines_ops_from(ls: Seq<Seq<char>>, row: u16, i: int) -> Seq<TermOp>
    decreases ls.len() - i,
{
    if i < 0 || i >= ls.len() {
        Seq::empty()
    } else {
        seq![TermOp::MoveTo(0, row_at(row, i)), TermOp::Print(ls[i])] + lines_ops_from(
            ls,
            row,
            i + 1,
        )
    }
}

/// Drawing the lines from index `i` on takes two operations per line.
proof fn lemma_lines_ops_from_len(ls: Seq<Seq<char>>, row: u16, i: int)
    requires
        0 <= i <= ls.len(),
    ensures
        lines_ops_from(ls, row, i).len() == 2 * (ls.len() - i),
    decreases ls.len() - i,
{
    if i < ls.len() {
        lemma_lines_ops_from_len(ls, row, i + 1);
    }
}

/// Drawing text lines never saves or restores the cursor.
pub proof fn lemma_lines_ops_neutral(ls: Seq<Seq<char>>, row: u16, i: int)
    ensures
        cursor_neutral(lines_ops_from(ls, row, i)),
    decreases ls.len() - i,
{
    if 0 <= i < ls.len() {
        lemma_lines_ops_neutral(ls, row, i + 1);
        let head = seq![TermOp::MoveTo(0, row_at(row, i)), TermOp::Print(ls[i])];
        let tail = lines_ops_from(ls, row, i + 1);
        assert forall|j: int| 0 <= j < (head + tail).len() implies !((#[trigger] (head + tail)[j])
            is SavePos) && !((head + tail)[j] is RestorePos) by {
            if j >= 2 {
                assert((head + tail)[j] == tail[j - 2]);
            }
        }
    }
}

/// Static UI text: an identifier and the lines it paints, starting at a
/// fixed row.
pub struct StaticTextEntity {
    /// The entity's own name.
    pub id: String,
    /// The lines painted, one per row.
    pub lines: Vec<String>,
    /// The row of the first line.
    pub row: u16,
}

impl StaticTextEntity {
    /// A static text entity named after `id`, painting `lines` from `row`
    /// down.
    pub fn new(id: &str, lines: Vec<String>, row: u16) -> (r: StaticTextEntity)
        ensures
            r.id@ == "StaticTextEntity-"@ + id@,
            r.lines == lines,
            r.row == row,
    {
        let mut name = "StaticTextEntity-".to_owned();
        name.append(id);
        StaticTextEntity { id: name, lines, row }
    }
}

impl Named for StaticTextEntity {
    open spec fn spec_name(&self) -> Seq<char> {
        self.id@
    }

    fn get_name(&self) -> (r: &str) {
        self.id.as_str()
    }
}

impl Entity for StaticTextEntity {
    open spec fn draw_ops(&self) -> Seq<TermOp> {
        lines_ops_from(self.lines.deep_view(), self.row, 0)
    }

    open spec fn draw_infallible(&self) -> bool {
        self.lines@.len() == 0
    }

    open spec fn update_ens(&self, post: Self, r: UpdateResult) -> bool {
        post == *self && is_nop(r)
    }

    open spec fn handle_ens(&self, post: Self, ev: InputEvent, consumed: bool) -> bool {
        post == *self && !consumed
    }

    fn draw(&self, ctx: &mut DrawContext) -> (r: Result<(), TermError>) {
        proof {
            lemma_lines_ops_neutral(self.lines.deep_view(), self.row, 0);
        }
        let n = self.lines.len();
        let mut i: usize = 0;
        while i < n
            invariant
                i <= n,
                n == self.lines@.len(),
                cursor_neutral(self.draw_ops()),
                old(ctx).ops@ + lines_ops_from(self.lines.deep_view(), self.row, 0) == ctx.ops@
                    + lines_ops_from(self.lines.deep_view(), self.row, i as int),
            decreases n - i,
        {
            let ghost ls = self.lines.deep_view();
            let ghost full = lines_ops_from(ls, self.row, 0);
            let ghost rest = lines_ops_from(ls, self.row, i as int);
            let ghost pre_ops = ctx.ops@;
            proof {
                lemma_lines_ops_from_len(ls, self.row, 0);
                lemma_lines_ops_from_len(ls, self.row, i as int);
                let base = old(ctx).ops@.len() as int;
                assert((pre_ops + rest).take(base + 2 * (i as int)) =~= pre_ops);
                assert((old(ctx).ops@ + full).take(base + 2 * (i as int)) =~= old(ctx).ops@
                    + full.take(2 * (i as int)));
                assert(pre_ops == old(ctx).ops@ + full.take(2 * (i as int)));
                assert(rest[0] == TermOp::MoveTo(0, row_at(self.row, i as int)));
                assert(rest[1] == TermOp::Print(ls[i as int]));
                assert((old(ctx).ops@ + full).skip(base) =~= full);
                assert((pre_ops + rest).skip(base) =~= full.take(2 * (i as int)) + rest);
                assert(full =~= full.take(2 * (i as int)) + rest);
                assert(full[2 * (i as int)] == rest[0]);
                assert(full[2 * (i as int) + 1] == rest[1]);
                assert(full.take(2 * (i as int) + 1) =~= full.take(2 * (i as int)) + seq![rest[0]]);
                assert(full.take(2 * (i as int) + 2) =~= full.take(2 * (i as int) + 1) + seq![
                    rest[1],
                ]);
                assert(self.draw_ops() == full);
            }
            let r = term_move_to(ctx, 0, row_at_exec(self.row, i));
            match r {
                Ok(()) => (),
                Err(e) => {
                    proof {
                        if ctx.ops@ == pre_ops {
                            assert(ctx.ops@ == old(ctx).ops@ + full.take(2 * (i as int)));
                        } else {
                            assert(ctx.ops@ =~= old(ctx).ops@ + full.take(2 * (i as int) + 1));
                        }
                    }
                    return Err(e);
                },
            }
            let ghost mid_ops = ctx.ops@;
            proof {
                assert(mid_ops =~= old(ctx).ops@ + full.take(2 * (i as int) + 1));
            }
            let r = term_print(ctx, self.lines[i].as_str());
            match r {
                Ok(()) => (),
                Err(e) => {
                    proof {
                        assert(ls[i as int] == self.lines@[i as int]@);
                        if ctx.ops@ == mid_ops {
                            assert(ctx.ops@ == old(ctx).ops@ + full.take(2 * (i as int) + 1));
                        } else {
                            assert(ctx.ops@ =~= old(ctx).ops@ + full.take(2 * (i as int) + 2));
                        }
                    }
                    return Err(e);
                },
            }
            proof {
                let ls = self.lines.deep_view();
                assert(ls[i as int] == self.lines@[i as int]@);
                assert(ctx.ops@ =~= pre_ops + seq![
                    TermOp::MoveTo(0, row_at(self.row, i as int)),
                    TermOp::Print(ls[i as int]),
                ]);
                assert(pre_ops + lines_ops_from(ls, self.row, i as int) =~= ctx.ops@
                    + lines_ops_from(ls, self.row, i + 1));
            }
            i += 1;
        }
        proof {
            assert(lines_ops_from(self.lines.deep_view(), self.row, n as int)
                =~= Seq::<TermOp>::empty());
            assert(ctx.ops@ =~= old(ctx).ops@ + self.draw_ops());
        }
        Ok(())
    }

    fn update(&mut self) -> (r: UpdateResult) {
        UpdateResult::nop()
    }

    fn handle_event(&mut self, ctx: EventContext) -> (consumed: bool) {
        false
    }
}

} // verus!
