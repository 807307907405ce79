use crate::task::{dec_digits, push_dec, SubtaskSpec, TaskDescriptor};
use vstd::prelude::*;

verus! {

/// The hexadecimal digit for `n`, lower case.
pub open spec fn hex_digit(n: u8) -> u8 {
    if n < 10 {
        (48 + n) as u8
    } else {
        (87 + n) as u8
    }
}

/// How one byte appears inside a JSON string: quote and backslash are
/// escaped, control bytes become `\\u00XX`, everything else stands as
/// it is.
pub open spec fn escape_byte(b: u8) -> Seq<u8> {
    if b == 34 {
        seq![92u8, 34u8]
    } else if b == 92 {
        seq![92u8, 92u8]
    } else if b < 32 {
        seq![92u8, 117u8, 48u8, 48u8, hex_digit(b / 16), hex_digit(b % 16)]
    } else {
        seq![b]
    }
}

/// A byte sequence escaped for use inside a JSON string.
pub open spec fn escaped(s: Seq<u8>) -> Seq<u8>
    decreases s.len(),
{
    if s.len() == 0 {
        Seq::empty()
    } else {
        escape_byte(s[0]) + escaped(s.drop_first())
    }
}

/// A JSON string: the escaped bytes between two quotes.
pub open spec fn json_str_of(s: Seq<u8>) -> Seq<u8> {
    seq![34u8] + escaped(s) + seq![34u8]
}

/// The comma-separated items of a JSON array of strings.
pub open spec fn json_str_items_of(elems: Seq<Seq<u8>>) -> Seq<u8>
    decreases elems.len(),
{
    if elems.len() == 0 {
        Seq::empty()
    } else if elems.len() == 1 {
        json_str_of(elems[0])
    } else {
        json_str_items_of(elems.drop_last()) + seq![44u8] + json_str_of(elems.last())
    }
}

/// A JSON array of strings.
pub open spec fn json_str_array_of(elems: Seq<Seq<u8>>) -> Seq<u8> {
    seq![91u8] + json_str_items_of(elems) + seq![93u8]
}

/// `{"bid":` as bytes.
pub open spec fn json_lit_bid() -> Seq<u8> {
    seq![123u8, 34u8, 98u8, 105u8, 100u8, 34u8, 58u8]
}

fn push_json_lit_bid(out: &mut Vec<u8>)
    ensures
        final (out)@ == old(out)@ + json_lit_bid(),
{
    out.push(123);
    out.push(34);
    out.push(98);
    out.push(105);
    out.push(100);
    out.push(34);
    out.push(58);
    proof {
        assert(out@ =~= old(out)@ + json_lit_bid());
    }
}

/// `,"name":` as bytes.
pub open spec fn json_lit_name() -> Seq<u8> {
    seq![44u8, 34u8, 110u8, 97u8, 109u8, 101u8, 34u8, 58u8]
}

fn push_json_lit_name(out: &mut Vec<u8>)
    ensures
        final (out)@ == old(out)@ + json_lit_name(),
{
    out.push(44);
    out.push(34);
    out.push(110);
    out.push(97);
    out.push(109);
    out.push(101);
    out.push(34);
    out.push(58);
    proof {
        assert(out@ =~= old(out)@ + json_lit_name());
    }
}

/// `,"options":{"input_dir":` as bytes.
pub open spec fn json_lit_options_input_dir() -> Seq<u8> {
    seq![44u8, 34u8, 111u8, 112u8, 116u8, 105u8, 111u8, 110u8, 115u8, 34u8, 58u8, 123u8, 34u8, 105u8, 110u8, 112u8, 117u8, 116u8, 95u8, 100u8, 105u8, 114u8, 34u8, 58u8]
}

fn push_json_lit_options_input_dir(out: &mut Vec<u8>)
    ensures
        final (out)@ == old(out)@ + json_lit_options_input_dir(),
{
    out.push(44);
    out.push(34);
    out.push(111);
    out.push(112);
    out.push(116);
    out.push(105);
    out.push(111);
    out.push(110);
    out.push(115);
    out.push(34);
    out.push(58);
    out.push(123);
    out.push(34);
    out.push(105);
    out.push(110);
    out.push(112);
    out.push(117);
    out.push(116);
    out.push(95);
    out.push(100);
    out.push(105);
    out.push(114);
    out.push(34);
    out.push(58);
    proof {
        assert(out@ =~= old(out)@ + json_lit_options_input_dir());
    }
}

/// `,"js_name":` as bytes.
pub open spec fn json_lit_js_name() -> Seq<u8> {
    seq![44u8, 34u8, 106u8, 115u8, 95u8, 110u8, 97u8, 109u8, 101u8, 34u8, 58u8]
}

fn push_json_lit_js_name(out: &mut Vec<u8>)
    ensures
        final (out)@ == old(out)@ + json_lit_js_name(),
{
    out.push(44);
    out.push(34);
    out.push(106);
    out.push(115);
    out.push(95);
    out.push(110);
    out.push(97);
    out.push(109);
    out.push(101);
    out.push(34);
    out.push(58);
    proof {
        assert(out@ =~= old(out)@ + json_lit_js_name());
    }
}

/// `,"output_dir":` as bytes.
pub open spec fn json_lit_output_dir() -> Seq<u8> {
    seq![44u8, 34u8, 111u8, 117u8, 116u8, 112u8, 117u8, 116u8, 95u8, 100u8, 105u8, 114u8, 34u8, 58u8]
}

fn push_json_lit_output_dir(out: &mut Vec<u8>)
    ensures
        final (out)@ == old(out)@ + json_lit_output_dir(),
{
    out.push(44);
    out.push(34);
    out.push(111);
    out.push(117);
    out.push(116);
    out.push(112);
    out.push(117);
    out.push(116);
    out.push(95);
    out.push(100);
    out.push(105);
    out.push(114);
    out.push(34);
    out.push(58);
    proof {
        assert(out@ =~= old(out)@ + json_lit_output_dir());
    }
}

/// `,"subtasks":{` as bytes.
pub open spec fn json_lit_subtasks() -> Seq<u8> {
    seq![44u8, 34u8, 115u8, 117u8, 98u8, 116u8, 97u8, 115u8, 107u8, 115u8, 34u8, 58u8, 123u8]
}

fn push_json_lit_subtasks(out: &mut Vec<u8>)
    ensures
        final (out)@ == old(out)@ + json_lit_subtasks(),
{
    out.push(44);
    out.push(34);
    out.push(115);
    out.push(117);
    out.push(98);
    out.push(116);
    out.push(97);
    out.push(115);
    out.push(107);
    out.push(115);
    out.push(34);
    out.push(58);
    out.push(123);
    proof {
        assert(out@ =~= old(out)@ + json_lit_subtasks());
    }
}

/// `},"wasm_name":` as bytes.
pub open spec fn json_lit_wasm_name() -> Seq<u8> {
    seq![125u8, 44u8, 34u8, 119u8, 97u8, 115u8, 109u8, 95u8, 110u8, 97u8, 109u8, 101u8, 34u8, 58u8]
}

fn push_json_lit_wasm_name(out: &mut Vec<u8>)
    ensures
        final (out)@ == old(out)@ + json_lit_wasm_name(),
{
    out.push(125);
    out.push(44);
    out.push(34);
    out.push(119);
    out.push(97);
    out.push(115);
    out.push(109);
    out.push(95);
    out.push(110);
    out.push(97);
    out.push(109);
    out.push(101);
    out.push(34);
    out.push(58);
    proof {
        assert(out@ =~= old(out)@ + json_lit_wasm_name());
    }
}

/// `,"subtask_timeout":` as bytes.
pub open spec fn json_lit_subtask_timeout() -> Seq<u8> {
    seq![44u8, 34u8, 115u8, 117u8, 98u8, 116u8, 97u8, 115u8, 107u8, 95u8, 116u8, 105u8, 109u8, 101u8, 111u8, 117u8, 116u8, 34u8, 58u8]
}

fn push_json_lit_subtask_timeout(out: &mut Vec<u8>)
    ensures
        final (out)@ == old(out)@ + json_lit_subtask_timeout(),
{
    out.push(44);
    out.push(34);
    out.push(115);
    out.push(117);
    out.push(98);
    out.push(116);
    out.push(97);
    out.push(115);
    out.push(107);
    out.push(95);
    out.push(116);
    out.push(105);
    out.push(109);
    out.push(101);
    out.push(111);
    out.push(117);
    out.push(116);
    out.push(34);
    out.push(58);
    proof {
        assert(out@ =~= old(out)@ + json_lit_subtask_timeout());
    }
}

/// `,"timeout":` as bytes.
pub open spec fn json_lit_timeout() -> Seq<u8> {
    seq![44u8, 34u8, 116u8, 105u8, 109u8, 101u8, 111u8, 117u8, 116u8, 34u8, 58u8]
}

fn push_json_lit_timeout(out: &mut Vec<u8>)
    ensures
        final (out)@ == old(out)@ + json_lit_timeout(),
{
    out.push(44);
    out.push(34);
    out.push(116);
    out.push(105);
    out.push(109);
    out.push(101);
    out.push(111);
    out.push(117);
    out.push(116);
    out.push(34);
    out.push(58);
    proof {
        assert(out@ =~= old(out)@ + json_lit_timeout());
    }
}

/// `,"type":` as bytes.
pub open spec fn json_lit_type() -> Seq<u8> {
    seq![44u8, 34u8, 116u8, 121u8, 112u8, 101u8, 34u8, 58u8]
}

fn push_json_lit_type(out: &mut Vec<u8>)
    ensures
        final (out)@ == old(out)@ + json_lit_type(),
{
    out.push(44);
    out.push(34);
    out.push(116);
    out.push(121);
    out.push(112);
    out.push(101);
    out.push(34);
    out.push(58);
    proof {
        assert(out@ =~= old(out)@ + json_lit_type());
    }
}

/// `{"exec_args":` as bytes.
pub open spec fn json_lit_exec_args() -> Seq<u8> {
    seq![123u8, 34u8, 101u8, 120u8, 101u8, 99u8, 95u8, 97u8, 114u8, 103u8, 115u8, 34u8, 58u8]
}

fn push_json_lit_exec_args(out: &mut Vec<u8>)
    ensures
        final (out)@ == old(out)@ + json_lit_exec_args(),
{
    out.push(123);
    out.push(34);
    out.push(101);
    out.push(120);
    out.push(101);
    out.push(99);
    out.push(95);
    out.push(97);
    out.push(114);
    out.push(103);
    out.push(115);
    out.push(34);
    out.push(58);
    proof {
        assert(out@ =~= old(out)@ + json_lit_exec_args());
    }
}

/// `,"output_file_paths":` as bytes.
pub open spec fn json_lit_output_file_paths() -> Seq<u8> {
    seq![44u8, 34u8, 111u8, 117u8, 116u8, 112u8, 117u8, 116u8, 95u8, 102u8, 105u8, 108u8, 101u8, 95u8, 112u8, 97u8, 116u8, 104u8, 115u8, 34u8, 58u8]
}

fn push_json_lit_output_file_paths(out: &mut Vec<u8>)
    ensures
        final (out)@ == old(out)@ + json_lit_output_file_paths(),
{
    out.push(44);
    out.push(34);
    out.push(111);
    out.push(117);
    out.push(116);
    out.push(112);
    out.push(117);
    out.push(116);
    out.push(95);
    out.push(102);
    out.push(105);
    out.push(108);
    out.push(101);
    out.push(95);
    out.push(112);
    out.push(97);
    out.push(116);
    out.push(104);
    out.push(115);
    out.push(34);
    out.push(58);
    proof {
        assert(out@ =~= old(out)@ + json_lit_output_file_paths());
    }
}

/// One subtask's JSON object, as the remote service reads it.
pub open spec fn json_subtask_of(t: SubtaskSpec) -> Seq<u8> {
    json_lit_exec_args() + json_str_array_of(t.exec_args.deep_view())
        + json_lit_output_file_paths() + json_str_array_of(t.declared_output_files.deep_view())
        + seq![125u8]
}

/// The comma-separated entries of the subtask mapping, keyed by name,
/// in subtask order.
pub open spec fn json_subtask_items_of(ts: Seq<SubtaskSpec>) -> Seq<u8>
    decreases ts.len(),
{
    if ts.len() == 0 {
        Seq::empty()
    } else if ts.len() == 1 {
        json_str_of(ts[0].name@) + seq![58u8] + json_subtask_of(ts[0])
    } else {
        json_subtask_items_of(ts.drop_last()) + seq![44u8] + json_str_of(ts.last().name@)
            + seq![58u8] + json_subtask_of(ts.last())
    }
}

/// The whole task description on the wire: one JSON object with the
/// fields `bid`, `name`, `options` (holding `input_dir`, `js_name`,
/// `output_dir`, `subtasks`, `wasm_name`), `subtask_timeout`, `timeout`
/// and `type`, keys in that fixed order.
pub open spec fn task_json_of(d: TaskDescriptor) -> Seq<u8> {
    json_lit_bid() + dec_digits(d.bid as nat) + json_lit_name() + json_str_of(d.display_name@)
        + json_lit_options_input_dir() + json_str_of(d.input_dir@) + json_lit_js_name()
        + json_str_of(d.js_name@) + json_lit_output_dir() + json_str_of(d.output_dir@)
        + json_lit_subtasks() + json_subtask_items_of(d.subtasks@) + json_lit_wasm_name()
        + json_str_of(d.wasm_name@) + seq![125u8] + json_lit_subtask_timeout() + json_str_of(
        d.subtask_timeout@,
    ) + json_lit_timeout() + json_str_of(d.timeout@) + json_lit_type() + json_str_of(d.kind@)
        + seq![125u8]
}

fn hex_digit_exec(n: u8) -> (r: u8)
    requires
        n < 16,
    ensures
        r == hex_digit(n),
{
    if n < 10 {
        48 + n
    } else {
        87 + n
    }
}

/// Appends `s` as a JSON string, quoted and escaped.
fn push_json_str(out: &mut Vec<u8>, s: &Vec<u8>)
    ensures
        final (out)@ == old(out)@ + json_str_of(s@),
{
    out.push(34);
    let mut i: usize = 0;
    proof {
        assert(s@.skip(0) =~= s@);
    }
    while i < s.len()
        invariant
            i <= s@.len(),
            out@ + escaped(s@.skip(i as int)) == old(out)@.push(34u8) + escaped(s@),
        decreases s@.len() - i,
    {
        let ghost prev = out@;
        let b = s[i];
        proof {
            assert(s@.skip(i as int)[0] == s@[i as int]);
            assert(s@.skip(i as int).drop_first() =~= s@.skip(i as int + 1));
        }
        if b == 34 {
            out.push(92);
            out.push(34);
        } else if b == 92 {
            out.push(92);
            out.push(92);
        } else if b < 32 {
            out.push(92);
            out.push(117);
            out.push(48);
            out.push(48);
            out.push(hex_digit_exec(b / 16));
            out.push(hex_digit_exec(b % 16));
        } else {
            out.push(b);
        }
        proof {
            assert(out@ =~= prev + escape_byte(s@[i as int]));
            assert((prev + escape_byte(s@[i as int])) + escaped(s@.skip(i as int + 1)) =~= prev + (
            escape_byte(s@[i as int]) + escaped(s@.skip(i as int + 1))));
        }
        i = i + 1;
    }
    proof {
        assert(s@.skip(s@.len() as int) =~= Seq::<u8>::empty());
        assert(out@ + Seq::<u8>::empty() =~= out@);
    }
    out.push(34);
    proof {
        assert(old(out)@ + json_str_of(s@) =~= (old(out)@.push(34u8) + escaped(s@)).push(34u8));
    }
}

/// Appends `elems` as a JSON array of strings.
fn push_json_str_array(out: &mut Vec<u8>, elems: &Vec<Vec<u8>>)
    ensures
        final (out)@ == old(out)@ + json_str_array_of(elems.deep_view()),
{
    let ghost dv = elems.deep_view();
    out.push(91);
    let mut j: usize = 0;
    proof {
        assert(dv.take(0) =~= Seq::<Seq<u8>>::empty());
    }
    while j < elems.len()
        invariant
            j <= dv.len(),
            dv == elems.deep_view(),
            dv.len() == elems@.len(),
            out@ == old(out)@.push(91u8) + json_str_items_of(dv.take(j as int)),
        decreases dv.len() - j,
    {
        let ghost prev = out@;
        if j > 0 {
            out.push(44);
        }
        push_json_str(out, &elems[j]);
        proof {
            assert(dv[j as int] =~~= elems@[j as int]@);
            assert(dv.take(j as int + 1).drop_last() =~= dv.take(j as int));
            assert(dv.take(j as int + 1).last() == dv[j as int]);
            if j == 0 {
                assert(json_str_items_of(dv.take(1)) == json_str_of(dv[0]));
                assert(out@ =~= old(out)@.push(91u8) + json_str_items_of(dv.take(1)));
            } else {
                assert(json_str_items_of(dv.take(j as int + 1)) == json_str_items_of(
                    dv.take(j as int),
                ) + seq![44u8] + json_str_of(dv[j as int]));
                assert(out@ =~= old(out)@.push(91u8) + json_str_items_of(dv.take(j as int + 1)));
            }
        }
        j = j + 1;
    }
    proof {
        assert(dv.take(dv.len() as int) =~= dv);
    }
    out.push(93);
    proof {
        assert(old(out)@ + json_str_array_of(dv) =~= (old(out)@.push(91u8) + json_str_items_of(
            dv,
        )).push(93u8));
    }
}

/// Appends one subtask's JSON object.
fn push_subtask_obj(out: &mut Vec<u8>, t: &SubtaskSpec)
    ensures
        final (out)@ == old(out)@ + json_subtask_of(*t),
{
    push_json_lit_exec_args(out);
    push_json_str_array(out, &t.exec_args);
    push_json_lit_output_file_paths(out);
    push_json_str_array(out, &t.declared_output_files);
    out.push(125);
    proof {
        assert(old(out)@ + json_subtask_of(*t) =~= out@);
    }
}

/// Renders the descriptor as the task.json bytes submitted to the
/// remote service: exactly `task_json_of` the descriptor.
pub fn render_task_json(d: &TaskDescriptor) -> (r: Vec<u8>)
    ensures
        r@ == task_json_of(*d),
{
    let mut out: Vec<u8> = Vec::new();
    push_json_lit_bid(&mut out);
    push_dec(d.bid, &mut out);
    push_json_lit_name(&mut out);
    push_json_str(&mut out, &d.display_name);
    push_json_lit_options_input_dir(&mut out);
    push_json_str(&mut out, &d.input_dir);
    push_json_lit_js_name(&mut out);
    push_json_str(&mut out, &d.js_name);
    push_json_lit_output_dir(&mut out);
    push_json_str(&mut out, &d.output_dir);
    push_json_lit_subtasks(&mut out);
    let ghost before_items = out@;
    let mut j: usize = 0;
    proof {
        assert(d.subtasks@.take(0) =~= Seq::<SubtaskSpec>::empty());
        assert(out@ + Seq::<u8>::empty() =~= out@);
    }
    while j < d.subtasks.len()
        invariant
            j <= d.subtasks@.len(),
            out@ == before_items + json_subtask_items_of(d.subtasks@.take(j as int)),
        decreases d.subtasks@.len() - j,
    {
        let ghost prev = out@;
        if j > 0 {
            out.push(44);
        }
        push_json_str(&mut out, &d.subtasks[j].name);
        out.push(58);
        push_subtask_obj(&mut out, &d.subtasks[j]);
        proof {
            let ts = d.subtasks@;
            assert(ts.take(j as int + 1).drop_last() =~= ts.take(j as int));
            assert(ts.take(j as int + 1).last() == ts[j as int]);
            if j == 0 {
                assert(json_subtask_items_of(ts.take(1)) == json_str_of(ts[0].name@) + seq![58u8]
                    + json_subtask_of(ts[0]));
            } else {
                assert(json_subtask_items_of(ts.take(j as int + 1)) == json_subtask_items_of(
                    ts.take(j as int),
                ) + seq![44u8] + json_str_of(ts[j as int].name@) + seq![58u8] + json_subtask_of(
                    ts[j as int],
                ));
            }
            assert(out@ =~= before_items + json_subtask_items_of(ts.take(j as int + 1)));
        }
        j = j + 1;
    }
    proof {
        assert(d.subtasks@.take(d.subtasks@.len() as int) =~= d.subtasks@);
    }
    push_json_lit_wasm_name(&mut out);
    push_json_str(&mut out, &d.wasm_name);
    out.push(125);
    push_json_lit_subtask_timeout(&mut out);
    push_json_str(&mut out, &d.subtask_timeout);
    push_json_lit_timeout(&mut out);
    push_json_str(&mut out, &d.timeout);
    push_json_lit_type(&mut out);
    push_json_str(&mut out, &d.kind);
    out.push(125);
    proof {
        assert(out@ =~= task_json_of(*d));
    }
    out
}

} // verus!
