//! The carried-forward tool-position trace: one row per line, each axis
//! holding the last value seen for it, or nothing while it is still
//! unknown.

use crate::instruction::{InstrModel, Instruction};
use crate::line::{Line, LineModel};
use crate::program::Program;
use vstd::prelude::*;

verus! {

/// One row of the position trace: a sequence index and the last-known
/// value text of each axis, absent while the axis has not been seen.
#[derive(Debug, PartialEq, Clone)]
pub struct Row {
    pub timestamp: u64,
    pub x: Option<String>,
    pub y: Option<String>,
    pub z: Option<String>,
}

/// The mathematical content of a `Row`.
pub struct RowModel {
    pub timestamp: u64,
    pub x: Option<Seq<char>>,
    pub y: Option<Seq<char>>,
    pub z: Option<Seq<char>>,
}

impl View for Row {
    type V = RowModel;

    open spec fn view(&self) -> RowModel {
        RowModel {
            timestamp: self.timestamp,
            x: self.x.deep_view(),
            y: self.y.deep_view(),
            z: self.z.deep_view(),
        }
    }
}

impl DeepView for Row {
    type V = RowModel;

    open spec fn deep_view(&self) -> RowModel {
        self.view()
    }
}

/// The known axis values carried across lines.
pub struct AxesModel {
    pub x: Option<Seq<char>>,
    pub y: Option<Seq<char>>,
    pub z: Option<Seq<char>>,
}

/// One instruction applied to the running axes: an axis code overwrites
/// its axis, every other code changes nothing.
pub open spec fn apply_instr(a: AxesModel, i: InstrModel) -> AxesModel {
    match i {
        InstrModel::X(v) => AxesModel { x: Some(v), ..a },
        InstrModel::Y(v) => AxesModel { y: Some(v), ..a },
        InstrModel::Z(v) => AxesModel { z: Some(v), ..a },
        _ => a,
    }
}

/// A line's instructions applied in order; the last setting of an axis
/// within the line wins.
pub open spec fn apply_instrs(a: AxesModel, ins: Seq<InstrModel>) -> AxesModel
    decreases ins.len(),
{
    if ins.len() == 0 {
        a
    } else {
        apply_instrs(apply_instr(a, ins[0]), ins.drop_first())
    }
}

/// The rows emitted for the given lines, starting from the axes `a` at
/// sequence index `t`.
pub open spec fn rows_from(a: AxesModel, lines: Seq<LineModel>, t: int) -> Seq<RowModel>
    decreases lines.len(),
{
    if lines.len() == 0 {
        Seq::empty()
    } else {
        let a2 = apply_instrs(a, lines[0].instructions);
        seq![RowModel { timestamp: t as u64, x: a2.x, y: a2.y, z: a2.z }] + rows_from(
            a2,
            lines.drop_first(),
            t + 1,
        )
    }
}

/// The position trace of a program: one row per line, in line order, all
/// axes initially unknown and never implicitly pre-seeded.
pub open spec fn position_rows(lines: Seq<LineModel>) -> Seq<RowModel> {
    rows_from(AxesModel { x: None, y: None, z: None }, lines, 0)
}

impl Row {
    /// The axes that a single line sets, collected into an otherwise empty
    /// row: the last setting of an axis within the line wins, axes the line
    /// does not set stay absent, and the sequence index is zero.
    pub fn from_line(l: &Line) -> (r: Row)
        ensures
            r@ == (RowModel {
                timestamp: 0,
                x: apply_instrs(AxesModel { x: None, y: None, z: None }, l@.instructions).x,
                y: apply_instrs(AxesModel { x: None, y: None, z: None }, l@.instructions).y,
                z: apply_instrs(AxesModel { x: None, y: None, z: None }, l@.instructions).z,
            }),
    {
        let ghost a0 = AxesModel { x: None, y: None, z: None };
        let ghost ins = l@.instructions;
        let mut cx: Option<String> = None;
        let mut cy: Option<String> = None;
        let mut cz: Option<String> = None;
        proof {
            assert(ins.skip(0) =~= ins);
        }
        let mut j: usize = 0;
        while j < l.instructions.len()
            invariant
                0 <= j <= l.instructions@.len(),
                ins == l.instructions.deep_view(),
                apply_instrs(a0, ins) == apply_instrs(
                    AxesModel { x: cx.deep_view(), y: cy.deep_view(), z: cz.deep_view() },
                    ins.skip(j as int),
                ),
            decreases l.instructions@.len() - j,
        {
            proof {
                assert(ins.skip(j as int)[0] == ins[j as int]);
                assert(ins.skip(j as int).drop_first() =~= ins.skip(j + 1));
                assert(l.instructions@[j as int].deep_view() == ins[j as int]);
            }
            match &l.instructions[j] {
                Instruction::X(v) => {
                    cx = Some(v.clone());
                },
                Instruction::Y(v) => {
                    cy = Some(v.clone());
                },
                Instruction::Z(v) => {
                    cz = Some(v.clone());
                },
                _ => {},
            }
            j += 1;
        }
        proof {
            assert(ins.skip(ins.len() as int).len() == 0);
        }
        Row { timestamp: 0, x: cx, y: cy, z: cz }
    }
}

/// An axis known in the first row is still known in the second.
pub open spec fn axes_monotone(r1: RowModel, r2: RowModel) -> bool {
    &&& r1.x is Some ==> r2.x is Some
    &&& r1.y is Some ==> r2.y is Some
    &&& r1.z is Some ==> r2.z is Some
}

/// Applying instructions never forgets a known axis.
proof fn lemma_apply_keeps(a: AxesModel, ins: Seq<InstrModel>)
    ensures
        a.x is Some ==> apply_instrs(a, ins).x is Some,
        a.y is Some ==> apply_instrs(a, ins).y is Some,
        a.z is Some ==> apply_instrs(a, ins).z is Some,
    decreases ins.len(),
{
    if ins.len() > 0 {
        lemma_apply_keeps(apply_instr(a, ins[0]), ins.drop_first());
    }
}

proof fn lemma_rows_from_props(a: AxesModel, lines: Seq<LineModel>, t: int)
    ensures
        rows_from(a, lines, t).len() == lines.len(),
        forall|i: int|
            0 <= i < lines.len() ==> {
                &&& (a.x is Some ==> #[trigger] rows_from(a, lines, t)[i].x is Some)
                &&& (a.y is Some ==> rows_from(a, lines, t)[i].y is Some)
                &&& (a.z is Some ==> rows_from(a, lines, t)[i].z is Some)
            },
        forall|i: int, j: int|
            0 <= i <= j < lines.len() ==> axes_monotone(
                #[trigger] rows_from(a, lines, t)[i],
                #[trigger] rows_from(a, lines, t)[j],
            ),
    decreases lines.len(),
{
    if lines.len() > 0 {
        let a2 = apply_instrs(a, lines[0].instructions);
        let rows = rows_from(a, lines, t);
        let tail = rows_from(a2, lines.drop_first(), t + 1);
        lemma_apply_keeps(a, lines[0].instructions);
        lemma_rows_from_props(a2, lines.drop_first(), t + 1);
        assert(forall|i: int| 1 <= i < rows.len() ==> rows[i] == tail[i - 1]);
        assert(rows[0].x == a2.x && rows[0].y == a2.y && rows[0].z == a2.z);
        assert forall|i: int, j: int| 0 <= i <= j < lines.len() implies axes_monotone(
            #[trigger] rows[i],
            #[trigger] rows[j],
        ) by {
            if i == 0 {
                if j > 0 {
                    assert(rows[j] == tail[j - 1]);
                }
            } else {
                assert(axes_monotone(tail[i - 1], tail[j - 1]));
            }
        }
    }
}

/// Law: the trace has exactly one row per line, and an axis reported known
/// in some row is reported known in every later row.
pub proof fn lemma_trace_shape(lines: Seq<LineModel>)
    ensures
        position_rows(lines).len() == lines.len(),
        forall|i: int, j: int|
            0 <= i <= j < lines.len() ==> axes_monotone(
                #[trigger] position_rows(lines)[i],
                #[trigger] position_rows(lines)[j],
            ),
{
    lemma_rows_from_props(AxesModel { x: None, y: None, z: None }, lines, 0);
}

/// Derives the position trace of a program: one row per line, each axis
/// carrying the last value seen for it, unknown axes left absent.
pub fn compute_csv(program: Program) -> (r: Vec<Row>)
    ensures
        r.deep_view() == position_rows(program@),
{
    let ghost lv = program@;
    let mut out: Vec<Row> = Vec::new();
    let mut cx: Option<String> = None;
    let mut cy: Option<String> = None;
    let mut cz: Option<String> = None;
    proof {
        assert(lv.skip(0) =~= lv);
        assert(out.deep_view() + position_rows(lv) =~= position_rows(lv));
    }
    let mut i: usize = 0;
    while i < program.lines.len()
        invariant
            0 <= i <= program.lines@.len(),
            lv == program.lines.deep_view(),
            out@.len() == i,
            out.deep_view() + rows_from(
                AxesModel { x: cx.deep_view(), y: cy.deep_view(), z: cz.deep_view() },
                lv.skip(i as int),
                i as int,
            ) == position_rows(lv),
        decreases program.lines@.len() - i,
    {
        let ghost a0 = AxesModel { x: cx.deep_view(), y: cy.deep_view(), z: cz.deep_view() };
        let ghost pre = out.deep_view();
        proof {
            assert(lv.skip(i as int)[0] == lv[i as int]);
            assert(lv.skip(i as int).drop_first() =~= lv.skip(i + 1));
            assert(program.lines@[i as int].deep_view() == lv[i as int]);
        }
        let line = &program.lines[i];
        let ghost ins = lv[i as int].instructions;
        proof {
            assert(ins.skip(0) =~= ins);
        }
        let mut j: usize = 0;
        while j < line.instructions.len()
            invariant
                0 <= j <= line.instructions@.len(),
                ins == line.instructions.deep_view(),
                apply_instrs(a0, ins) == apply_instrs(
                    AxesModel { x: cx.deep_view(), y: cy.deep_view(), z: cz.deep_view() },
                    ins.skip(j as int),
                ),
            decreases line.instructions@.len() - j,
        {
            proof {
                assert(ins.skip(j as int)[0] == ins[j as int]);
                assert(ins.skip(j as int).drop_first() =~= ins.skip(j + 1));
                assert(line.instructions@[j as int].deep_view() == ins[j as int]);
            }
            match &line.instructions[j] {
                Instruction::X(v) => {
                    cx = Some(v.clone());
                },
                Instruction::Y(v) => {
                    cy = Some(v.clone());
                },
                Instruction::Z(v) => {
                    cz = Some(v.clone());
                },
                _ => {},
            }
            j += 1;
        }
        proof {
            assert(ins.skip(ins.len() as int).len() == 0);
        }
        let rx = match &cx {
            Some(s) => Some(s.clone()),
            None => None,
        };
        let ry = match &cy {
            Some(s) => Some(s.clone()),
            None => None,
        };
        let rz = match &cz {
            Some(s) => Some(s.clone()),
            None => None,
        };
        out.push(Row { timestamp: i as u64, x: rx, y: ry, z: rz });
        proof {
            let a2 = apply_instrs(a0, ins);
            assert(out.deep_view() =~= pre.push(
                RowModel { timestamp: i as u64, x: a2.x, y: a2.y, z: a2.z },
            ));
            assert(pre + (seq![
                RowModel { timestamp: i as u64, x: a2.x, y: a2.y, z: a2.z },
            ] + rows_from(a2, lv.skip(i + 1), i + 1)) =~= out.deep_view() + rows_from(
                a2,
                lv.skip(i + 1),
                i + 1,
            ));
        }
        i += 1;
    }
    proof {
        assert(lv.skip(lv.len() as int).len() == 0);
        assert(out.deep_view() + Seq::<RowModel>::empty() =~= out.deep_view());
    }
    out
}

} // verus!
