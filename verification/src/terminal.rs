//! The terminal surface gateway: a thin facade over the raw terminal
//! capability. Every screen write goes through an exclusively owned handle
//! and is recorded in a ghost log of operations, so that contracts can speak
//! about what a draw pass emitted and where it left the cursor. A failed
//! write may have been partly sent, so on failure each wrapper records its
//! operation as either absent or performed, nothing else.

use vstd::prelude::*;
use crossterm::ExecutableCommand;

verus! {

/// One terminal-surface operation, as recorded in the ghost draw log.
pub enum TermOp {
    /// Move the cursor to (column, row).
    MoveTo(u16, u16),
    /// Clear the line the cursor is on.
    ClearLine,
    /// Clear the whole screen.
    ClearAll,
    /// Print literal text at the cursor.
    Print(Seq<char>),
    /// Override the foreground color with red.
    SetFgRed,
    /// Reset colors to the terminal default.
    ResetColor,
    /// Remember the current cursor position.
    SavePos,
    /// Return the cursor to the remembered position.
    RestorePos,
}

/// What is known of the terminal cursor: its position and the remembered
/// position, each either a known (column, row) pair or unknown.
pub struct CursorModel {
    pub cur: Option<(u16, u16)>,
    pub saved: Option<(u16, u16)>,
}

/// The effect of one operation on the cursor model. Printing leaves the
/// cursor at an unknown position; clearing and color changes do not move it.
pub open spec fn apply_op(s: CursorModel, op: TermOp) -> CursorModel {
    match op {
        TermOp::MoveTo(col, row) => CursorModel { cur: Some((col, row)), saved: s.saved },
        TermOp::Print(_) => CursorModel { cur: None, saved: s.saved },
        TermOp::SavePos => CursorModel { cur: s.cur, saved: s.cur },
        TermOp::RestorePos => CursorModel { cur: s.saved, saved: s.saved },
        _ => s,
    }
}

/// The cursor model after a sequence of operations.
pub open spec fn apply_ops(s: CursorModel, ops: Seq<TermOp>) -> CursorModel
    decreases ops.len(),
{
    if ops.len() == 0 {
        s
    } else {
        apply_ops(apply_op(s, ops[0]), ops.drop_first())
    }
}

/// Whether a sequence of operations neither saves nor restores the cursor.
pub open spec fn cursor_neutral(ops: Seq<TermOp>) -> bool {
    forall|i: int|
        0 <= i < ops.len() ==> !((#[trigger] ops[i]) is SavePos) && !(ops[i] is RestorePos)
}

/// Splitting a sequence of operations splits their effect.
pub proof fn lemma_apply_ops_concat(s: CursorModel, a: Seq<TermOp>, b: Seq<TermOp>)
    ensures
        apply_ops(s, a + b) == apply_ops(apply_ops(s, a), b),
    decreases a.len(),
{
    if a.len() == 0 {
        assert(a + b =~= b);
    } else {
        assert((a + b)[0] == a[0]);
        assert((a + b).drop_first() =~= a.drop_first() + b);
        lemma_apply_ops_concat(apply_op(s, a[0]), a.drop_first(), b);
    }
}

/// Operations that neither save nor restore leave the remembered position
/// alone.
proof fn lemma_neutral_keeps_saved(s: CursorModel, ops: Seq<TermOp>)
    requires
        cursor_neutral(ops),
    ensures
        apply_ops(s, ops).saved == s.saved,
    decreases ops.len(),
{
    if ops.len() > 0 {
        assert(cursor_neutral(ops.drop_first())) by {
            assert(forall|i: int|
                0 <= i < ops.drop_first().len() ==> ops.drop_first()[i] == ops[i + 1]);
        }
        lemma_neutral_keeps_saved(apply_op(s, ops[0]), ops.drop_first());
    }
}

/// A single operation acts as itself.
proof fn lemma_apply_ops_one(s: CursorModel, op: TermOp)
    ensures
        apply_ops(s, seq![op]) == apply_op(s, op),
{
    assert(seq![op].len() == 1);
    assert(seq![op][0] == op);
    assert(seq![op].drop_first() =~= Seq::<TermOp>::empty());
    assert(apply_ops(apply_op(s, op), Seq::<TermOp>::empty()) == apply_op(s, op));
    assert(apply_ops(s, seq![op]) == apply_ops(apply_op(s, op), seq![op].drop_first()));
}

/// Law: wrapping any save/restore-free draw between a save and a restore
/// returns the cursor to where it stood before the draw, whatever the draw
/// printed or wherever it moved.
pub proof fn lemma_save_restore_preserves_cursor(s: CursorModel, ops: Seq<TermOp>)
    requires
        cursor_neutral(ops),
    ensures
        apply_ops(s, seq![TermOp::SavePos] + ops + seq![TermOp::RestorePos]).cur == s.cur,
{
    let saved = apply_op(s, TermOp::SavePos);
    lemma_apply_ops_one(s, TermOp::SavePos);
    lemma_apply_ops_concat(s, seq![TermOp::SavePos], ops);
    assert(apply_ops(s, seq![TermOp::SavePos] + ops) == apply_ops(saved, ops));
    lemma_neutral_keeps_saved(saved, ops);
    lemma_apply_ops_concat(s, seq![TermOp::SavePos] + ops, seq![TermOp::RestorePos]);
    assert((seq![TermOp::SavePos] + ops + seq![TermOp::RestorePos]) =~= (seq![TermOp::SavePos]
        + ops) + seq![TermOp::RestorePos]);
    lemma_apply_ops_one(apply_ops(saved, ops), TermOp::RestorePos);
}

/// The log `post` extends `pre` only by operations that neither save nor
/// restore the cursor.
pub open spec fn extends_neutrally(pre: Seq<TermOp>, post: Seq<TermOp>) -> bool {
    &&& pre.len() <= post.len()
    &&& post.take(pre.len() as int) == pre
    &&& cursor_neutral(post.skip(pre.len() as int))
}

/// A log extends itself neutrally.
pub proof fn lemma_extends_neutrally_refl(ops: Seq<TermOp>)
    ensures
        extends_neutrally(ops, ops),
{
    assert(ops.take(ops.len() as int) =~= ops);
    assert(ops.skip(ops.len() as int) =~= Seq::<TermOp>::empty());
}

/// A neutral extension followed by at most one more save/restore-free
/// operation is still a neutral extension.
pub proof fn lemma_extends_neutrally_step(
    a: Seq<TermOp>,
    b: Seq<TermOp>,
    c: Seq<TermOp>,
    op: TermOp,
)
    requires
        extends_neutrally(a, b),
        c == b || c == b + seq![op],
        !(op is SavePos),
        !(op is RestorePos),
    ensures
        extends_neutrally(a, c),
{
    if c == b {
    } else {
        assert((b + seq![op]).take(a.len() as int) =~= b.take(a.len() as int));
        assert((b + seq![op]).skip(a.len() as int) =~= b.skip(a.len() as int) + seq![op]);
        let tail = b.skip(a.len() as int) + seq![op];
        assert forall|i: int| 0 <= i < tail.len() implies !((#[trigger] tail[i]) is SavePos) && !(
        tail[i] is RestorePos) by {
            if i < b.skip(a.len() as int).len() {
                assert(tail[i] == b.skip(a.len() as int)[i]);
            } else {
                assert(tail[i] == op);
            }
        }
    }
}

#[verifier::external_type_specification]
#[verifier::external_body]
pub struct ExStdout(std::io::Stdout);

#[verifier::external_type_specification]
#[verifier::external_body]
pub struct ExIoError(std::io::Error);

/// A terminal-surface failure, carrying the underlying I/O error. Treated as
/// fatal: it is propagated out of the tick loop, never retried.
pub struct TermError {
    pub source: std::io::Error,
}

/// The exclusively owned handle through which all screen writes and mode
/// changes occur, together with the ghost log of the operations performed.
pub struct DrawContext {
    pub out: std::io::Stdout,
    pub ops: Ghost<Seq<TermOp>>,
}

/// Relies on std::io::stdout: a handle to the process's standard output.
#[verifier::external_body]
fn stdout_handle() -> std::io::Stdout {
    std::io::stdout()
}

impl DrawContext {
    /// A fresh drawing surface over standard output, with an empty log.
    pub fn new() -> (r: DrawContext)
        ensures
            r.ops@ == Seq::<TermOp>::empty(),
    {
        DrawContext { out: stdout_handle(), ops: Ghost(Seq::empty()) }
    }
}

/// The coordinate `n`, capped below the last cell index: the cursor-move
/// encoding carries coordinate plus one, so the very last index cannot be
/// sent.
pub open spec fn spec_cap_coord(n: nat) -> u16 {
    if n < 65535 {
        n as u16
    } else {
        65534
    }
}

/// The coordinate `n`, capped below the last cell index.
pub fn cap_coord(n: u16) -> (r: u16)
    ensures
        r == spec_cap_coord(n as nat),
        r < u16::MAX,
{
    if n == u16::MAX {
        u16::MAX - 1
    } else {
        n
    }
}

/// Relies on crossterm::cursor::MoveTo: moves the terminal cursor to the
/// given (column, row). The command's wire format carries each coordinate
/// plus one, which must still fit the coordinate type, so the very last cell
/// index is left out.
#[verifier::external_body]
pub fn term_move_to(ctx: &mut DrawContext, col: u16, row: u16) -> (r: Result<(), TermError>)
    requires
        col < u16::MAX,
        row < u16::MAX,
    ensures
        r is Ok ==> final(ctx).ops@ == old(ctx).ops@ + seq![TermOp::MoveTo(col, row)],
        r is Err ==> final(ctx).ops@ == old(ctx).ops@ || final(ctx).ops@ == old(ctx).ops@
            + seq![TermOp::MoveTo(col, row)],
{
    match ctx.out.execute(crossterm::cursor::MoveTo(col, row)) {
        Ok(_) => Ok(()),
        Err(e) => Err(TermError { source: e }),
    }
}

/// Relies on crossterm::terminal::Clear with ClearType::CurrentLine: clears
/// the line the cursor is on without moving the cursor.
#[verifier::external_body]
pub fn term_clear_line(ctx: &mut DrawContext) -> (r: Result<(), TermError>)
    ensures
        r is Ok ==> final(ctx).ops@ == old(ctx).ops@ + seq![TermOp::ClearLine],
        r is Err ==> final(ctx).ops@ == old(ctx).ops@ || final(ctx).ops@ == old(ctx).ops@
            + seq![TermOp::ClearLine],
{
    match ctx.out.execute(crossterm::terminal::Clear(crossterm::terminal::ClearType::CurrentLine)) {
        Ok(_) => Ok(()),
        Err(e) => Err(TermError { source: e }),
    }
}

/// Relies on crossterm::terminal::Clear with ClearType::All: clears the
/// whole screen without moving the cursor.
#[verifier::external_body]
pub fn term_clear_all(ctx: &mut DrawContext) -> (r: Result<(), TermError>)
    ensures
        r is Ok ==> final(ctx).ops@ == old(ctx).ops@ + seq![TermOp::ClearAll],
        r is Err ==> final(ctx).ops@ == old(ctx).ops@ || final(ctx).ops@ == old(ctx).ops@
            + seq![TermOp::ClearAll],
{
    match ctx.out.execute(crossterm::terminal::Clear(crossterm::terminal::ClearType::All)) {
        Ok(_) => Ok(()),
        Err(e) => Err(TermError { source: e }),
    }
}

/// Relies on crossterm::style::Print: writes the text at the cursor.
#[verifier::external_body]
pub fn term_print(ctx: &mut DrawContext, text: &str) -> (r: Result<(), TermError>)
    ensures
        r is Ok ==> final(ctx).ops@ == old(ctx).ops@ + seq![TermOp::Print(text@)],
        r is Err ==> final(ctx).ops@ == old(ctx).ops@ || final(ctx).ops@ == old(ctx).ops@
            + seq![TermOp::Print(text@)],
{
    match ctx.out.execute(crossterm::style::Print(text)) {
        Ok(_) => Ok(()),
        Err(e) => Err(TermError { source: e }),
    }
}

/// Relies on crossterm::style::SetForegroundColor: overrides the foreground
/// color with red until it is reset.
#[verifier::external_body]
pub fn term_set_fg_red(ctx: &mut DrawContext) -> (r: Result<(), TermError>)
    ensures
        r is Ok ==> final(ctx).ops@ == old(ctx).ops@ + seq![TermOp::SetFgRed],
        r is Err ==> final(ctx).ops@ == old(ctx).ops@ || final(ctx).ops@ == old(ctx).ops@
            + seq![TermOp::SetFgRed],
{
    match ctx.out.execute(crossterm::style::SetForegroundColor(crossterm::style::Color::Red)) {
        Ok(_) => Ok(()),
        Err(e) => Err(TermError { source: e }),
    }
}

/// Relies on crossterm::style::ResetColor: resets colors to the default.
#[verifier::external_body]
pub fn term_reset_color(ctx: &mut DrawContext) -> (r: Result<(), TermError>)
    ensures
        r is Ok ==> final(ctx).ops@ == old(ctx).ops@ + seq![TermOp::ResetColor],
        r is Err ==> final(ctx).ops@ == old(ctx).ops@ || final(ctx).ops@ == old(ctx).ops@
            + seq![TermOp::ResetColor],
{
    match ctx.out.execute(crossterm::style::ResetColor) {
        Ok(_) => Ok(()),
        Err(e) => Err(TermError { source: e }),
    }
}

/// Relies on crossterm::cursor::SavePosition: remembers the cursor position
/// for a later RestorePosition.
#[verifier::external_body]
pub fn term_save_position(ctx: &mut DrawContext) -> (r: Result<(), TermError>)
    ensures
        r is Ok ==> final(ctx).ops@ == old(ctx).ops@ + seq![TermOp::SavePos],
        r is Err ==> final(ctx).ops@ == old(ctx).ops@ || final(ctx).ops@ == old(ctx).ops@
            + seq![TermOp::SavePos],
{
    match ctx.out.execute(crossterm::cursor::SavePosition) {
        Ok(_) => Ok(()),
        Err(e) => Err(TermError { source: e }),
    }
}

/// Relies on crossterm::cursor::RestorePosition: returns the cursor to the
/// position remembered by the last SavePosition.
#[verifier::external_body]
pub fn term_restore_position(ctx: &mut DrawContext) -> (r: Result<(), TermError>)
    ensures
        r is Ok ==> final(ctx).ops@ == old(ctx).ops@ + seq![TermOp::RestorePos],
        r is Err ==> final(ctx).ops@ == old(ctx).ops@ || final(ctx).ops@ == old(ctx).ops@
            + seq![TermOp::RestorePos],
{
    match ctx.out.execute(crossterm::cursor::RestorePosition) {
        Ok(_) => Ok(()),
        Err(e) => Err(TermError { source: e }),
    }
}

/// Relies on crossterm::terminal::enable_raw_mode: puts the terminal into
/// raw input mode.
#[verifier::external_body]
pub fn term_enable_raw() -> (r: Result<(), TermError>)
{
    match crossterm::terminal::enable_raw_mode() {
        Ok(()) => Ok(()),
        Err(e) => Err(TermError { source: e }),
    }
}

/// Relies on crossterm::terminal::disable_raw_mode: restores the terminal's
/// normal input mode.
#[verifier::external_body]
pub fn term_disable_raw() -> (r: Result<(), TermError>)
{
    match crossterm::terminal::disable_raw_mode() {
        Ok(()) => Ok(()),
        Err(e) => Err(TermError { source: e }),
    }
}

/// Restores the terminal for ordinary use: normal input mode, a cleared
/// screen, the cursor at the origin. Failures here are ignored, as on any
/// teardown path. Whatever happens, the log only grows by operations that
/// neither save nor restore the cursor.
pub fn cleanup(ctx: &mut DrawContext)
    ensures
        extends_neutrally(old(ctx).ops@, final(ctx).ops@),
{
    let _ = term_disable_raw();
    proof {
        lemma_extends_neutrally_refl(old(ctx).ops@);
    }
    let ghost p0 = ctx.ops@;
    let _ = term_clear_all(ctx);
    proof {
        lemma_extends_neutrally_step(old(ctx).ops@, p0, ctx.ops@, TermOp::ClearAll);
    }
    let ghost p1 = ctx.ops@;
    let _ = term_move_to(ctx, 0, 0);
    proof {
        lemma_extends_neutrally_step(old(ctx).ops@, p1, ctx.ops@, TermOp::MoveTo(0, 0));
    }
}

} // verus!
