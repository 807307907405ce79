use crate::split::Chunk;
use vstd::prelude::*;

verus! {

use vstd::arithmetic::div_mod::lemma_fundamental_div_mod;

/// The remote work unit built for one chunk: its name carries the chunk
/// index, and its file locations live under the workspace directory.
pub struct SubtaskSpec {
    /// "subtask" followed by the decimal chunk index.
    pub name: Vec<u8>,
    /// Where the chunk text is to be written for the remote side.
    pub input_path: Vec<u8>,
    /// Where the remote side will put this subtask's audio segment.
    pub output_path: Vec<u8>,
    /// Arguments handed to the remote executable.
    pub exec_args: Vec<Vec<u8>>,
    /// Output files the remote side must deliver.
    pub declared_output_files: Vec<Vec<u8>>,
}

/// The complete, serializable description of one submitted task.
pub struct TaskDescriptor {
    /// Payload kind understood by the remote service.
    pub kind: Vec<u8>,
    /// Human-readable task name.
    pub display_name: Vec<u8>,
    /// Offered price for the whole task.
    pub bid: u64,
    /// Whole-task timeout, as the remote service's clock text.
    pub timeout: Vec<u8>,
    /// Per-subtask timeout, as the remote service's clock text.
    pub subtask_timeout: Vec<u8>,
    /// File name of the executable payload.
    pub js_name: Vec<u8>,
    /// File name of the binary payload.
    pub wasm_name: Vec<u8>,
    /// Directory all subtask inputs live under.
    pub input_dir: Vec<u8>,
    /// Directory all subtask outputs arrive under.
    pub output_dir: Vec<u8>,
    /// One work unit per chunk, in chunk-index order.
    pub subtasks: Vec<SubtaskSpec>,
}

/// Decimal digits of `n`, most significant first.
pub open spec fn dec_digits(n: nat) -> Seq<u8>
    decreases n,
{
    if n < 10 {
        seq![(48 + n) as u8]
    } else {
        dec_digits(n / 10).push((48 + n % 10) as u8)
    }
}

/// The number a decimal digit sequence denotes.
pub open spec fn dec_value(s: Seq<u8>) -> nat
    decreases s.len(),
{
    if s.len() == 0 {
        0
    } else {
        dec_value(s.drop_last()) * 10 + (if s.last() >= 48 {
            (s.last() - 48) as nat
        } else {
            0
        })
    }
}

/// Reading the rendered digits of `n` back gives `n`: the decimal
/// rendering is lossless.
pub proof fn lemma_dec_digits_value(n: nat)
    ensures
        dec_value(dec_digits(n)) == n,
        dec_digits(n).len() >= 1,
    decreases n,
{
    if n < 10 {
        let s = dec_digits(n);
        assert(s == seq![(48 + n) as u8]);
        assert(s.drop_last() =~= Seq::<u8>::empty());
        assert(dec_value(Seq::<u8>::empty()) == 0);
        assert(s.last() == (48 + n) as u8);
        assert((48 + n) as u8 == 48 + n);
    } else {
        lemma_dec_digits_value(n / 10);
        let s = dec_digits(n);
        assert(s == dec_digits(n / 10).push((48 + n % 10) as u8));
        assert(s.drop_last() =~= dec_digits(n / 10));
        assert(s.last() == (48 + n % 10) as u8);
        assert(0 <= n % 10 < 10);
        assert((48 + n % 10) as u8 == 48 + n % 10);
        lemma_fundamental_div_mod(n as int, 10);
    }
}

/// "subtask", the fixed name prefix.
pub open spec fn subtask_prefix() -> Seq<u8> {
    seq![115u8, 117u8, 98u8, 116u8, 97u8, 115u8, 107u8]
}

/// The name of the work unit for chunk `i`: "subtask" + decimal `i`.
pub open spec fn name_of(i: nat) -> Seq<u8> {
    subtask_prefix() + dec_digits(i)
}

/// The chunk index a subtask name carries.
pub open spec fn index_of_name(name: Seq<u8>) -> nat {
    dec_value(name.skip(7))
}

/// The index is recoverable from the name alone.
pub proof fn lemma_name_index_recoverable(i: nat)
    ensures
        index_of_name(name_of(i)) == i,
{
    lemma_dec_digits_value(i);
    assert(name_of(i).skip(7) =~= dec_digits(i));
}

/// Subtask naming is injective: distinct chunks never share a name.
pub proof fn lemma_name_of_injective(i: nat, j: nat)
    requires
        name_of(i) == name_of(j),
    ensures
        i == j,
{
    lemma_name_index_recoverable(i);
    lemma_name_index_recoverable(j);
}

/// "wasm", the payload kind.
pub open spec fn wasm_kind() -> Seq<u8> {
    seq![119u8, 97u8, 115u8, 109u8]
}

/// "g_flite", the display name of every submitted task.
pub open spec fn task_display_name() -> Seq<u8> {
    seq![103u8, 95u8, 102u8, 108u8, 105u8, 116u8, 101u8]
}

/// "00:10:00", the task and subtask timeout.
pub open spec fn task_timeout() -> Seq<u8> {
    seq![48u8, 48u8, 58u8, 49u8, 48u8, 58u8, 48u8, 48u8]
}

/// "flite.js", the executable payload's file name.
pub open spec fn js_payload_name() -> Seq<u8> {
    seq![102u8, 108u8, 105u8, 116u8, 101u8, 46u8, 106u8, 115u8]
}

/// "flite.wasm", the binary payload's file name.
pub open spec fn wasm_payload_name() -> Seq<u8> {
    seq![102u8, 108u8, 105u8, 116u8, 101u8, 46u8, 119u8, 97u8, 115u8, 109u8]
}

/// "in.txt", each subtask's input file name.
pub open spec fn input_file_name() -> Seq<u8> {
    seq![105u8, 110u8, 46u8, 116u8, 120u8, 116u8]
}

/// "in.wav", each subtask's output file name.
pub open spec fn output_file_name() -> Seq<u8> {
    seq![105u8, 110u8, 46u8, 119u8, 97u8, 118u8]
}

/// The input directory: `<workspace>/in`.
pub open spec fn input_dir_of(ws: Seq<u8>) -> Seq<u8> {
    ws + seq![47u8, 105u8, 110u8]
}

/// The output directory: `<workspace>/out`.
pub open spec fn output_dir_of(ws: Seq<u8>) -> Seq<u8> {
    ws + seq![47u8, 111u8, 117u8, 116u8]
}

/// Where chunk `i`'s text goes: `<workspace>/in/subtask<i>/in.txt`.
pub open spec fn input_path_of(ws: Seq<u8>, i: nat) -> Seq<u8> {
    input_dir_of(ws) + seq![47u8] + name_of(i) + seq![47u8] + input_file_name()
}

/// Where chunk `i`'s audio arrives: `<workspace>/out/subtask<i>/in.wav`.
pub open spec fn output_path_of(ws: Seq<u8>, i: nat) -> Seq<u8> {
    output_dir_of(ws) + seq![47u8] + name_of(i) + seq![47u8] + output_file_name()
}

/// The work unit for chunk `i` under workspace `ws`, field by field.
pub open spec fn subtask_wf(t: SubtaskSpec, ws: Seq<u8>, i: nat) -> bool {
    &&& t.name@ == name_of(i)
    &&& t.input_path@ == input_path_of(ws, i)
    &&& t.output_path@ == output_path_of(ws, i)
    &&& t.exec_args.deep_view() == seq![input_file_name(), output_file_name()]
    &&& t.declared_output_files.deep_view() == seq![output_file_name()]
}

/// The descriptor for `count` chunks under workspace `ws`: all fixed
/// fields take their one value, and subtask `i` is built for chunk `i`.
pub open spec fn descriptor_wf(d: TaskDescriptor, ws: Seq<u8>, count: nat) -> bool {
    &&& d.kind@ == wasm_kind()
    &&& d.display_name@ == task_display_name()
    &&& d.bid == 1
    &&& d.timeout@ == task_timeout()
    &&& d.subtask_timeout@ == task_timeout()
    &&& d.js_name@ == js_payload_name()
    &&& d.wasm_name@ == wasm_payload_name()
    &&& d.input_dir@ == input_dir_of(ws)
    &&& d.output_dir@ == output_dir_of(ws)
    &&& d.subtasks@.len() == count
    &&& forall|i: int| 0 <= i < count ==> subtask_wf(#[trigger] d.subtasks@[i], ws, i as nat)
}

/// Descriptor building is deterministic: two well-formed descriptors
/// for the same chunk count under the same workspace agree on every
/// field, byte by byte.
pub proof fn lemma_build_deterministic(
    d1: TaskDescriptor,
    d2: TaskDescriptor,
    ws: Seq<u8>,
    count: nat,
)
    requires
        descriptor_wf(d1, ws, count),
        descriptor_wf(d2, ws, count),
    ensures
        d1.kind@ == d2.kind@,
        d1.display_name@ == d2.display_name@,
        d1.bid == d2.bid,
        d1.timeout@ == d2.timeout@,
        d1.subtask_timeout@ == d2.subtask_timeout@,
        d1.js_name@ == d2.js_name@,
        d1.wasm_name@ == d2.wasm_name@,
        d1.input_dir@ == d2.input_dir@,
        d1.output_dir@ == d2.output_dir@,
        d1.subtasks@.len() == d2.subtasks@.len(),
        forall|i: int|
            0 <= i < count ==> {
                let t1 = #[trigger] d1.subtasks@[i];
                let t2 = d2.subtasks@[i];
                &&& t1.name@ == t2.name@
                &&& t1.input_path@ == t2.input_path@
                &&& t1.output_path@ == t2.output_path@
                &&& t1.exec_args.deep_view() == t2.exec_args.deep_view()
                &&& t1.declared_output_files.deep_view() == t2.declared_output_files.deep_view()
            },
{
}

/// In a well-formed descriptor no two subtasks share a name: the name,
/// an injective image of the chunk index, keys the subtask mapping
/// unambiguously.
pub proof fn lemma_descriptor_names_distinct(d: TaskDescriptor, ws: Seq<u8>, count: nat)
    requires
        descriptor_wf(d, ws, count),
    ensures
        forall|i: int, j: int|
            0 <= i < j < count ==> (#[trigger] d.subtasks@[i]).name@ != (
            #[trigger] d.subtasks@[j]).name@,
{
    assert forall|i: int, j: int| 0 <= i < j < count implies (#[trigger] d.subtasks@[i]).name@ != (
    #[trigger] d.subtasks@[j]).name@ by {
        if d.subtasks@[i].name@ == d.subtasks@[j].name@ {
            lemma_name_of_injective(i as nat, j as nat);
        }
    }
}

/// Appends all of `src` to `out`.
fn push_bytes(out: &mut Vec<u8>, src: &Vec<u8>)
    ensures
        final (out)@ == old(out)@ + src@,
{
    let mut j: usize = 0;
    proof {
        assert(out@ + src@.subrange(0, 0) =~= out@);
    }
    while j < src.len()
        invariant
            j <= src@.len(),
            out@ == old(out)@ + src@.subrange(0, j as int),
        decreases src@.len() - j,
    {
        out.push(src[j]);
        proof {
            assert(old(out)@ + src@.subrange(0, j as int + 1) =~= (old(out)@ + src@.subrange(
                0,
                j as int,
            )).push(src@[j as int]));
        }
        j = j + 1;
    }
    proof {
        assert(src@.subrange(0, src@.len() as int) =~= src@);
    }
}

/// A fresh copy of `src`.
fn copy_bytes(src: &Vec<u8>) -> (r: Vec<u8>)
    ensures
        r@ == src@,
{
    let mut r: Vec<u8> = Vec::new();
    push_bytes(&mut r, src);
    proof {
        assert(Seq::<u8>::empty() + src@ =~= src@);
    }
    r
}

/// Appends the decimal digits of `n` to `out`.
pub(crate) fn push_dec(n: u64, out: &mut Vec<u8>)
    ensures
        final (out)@ == old(out)@ + dec_digits(n as nat),
    decreases n,
{
    if n < 10 {
        out.push(48 + (n as u8));
        proof {
            assert(old(out)@ + dec_digits(n as nat) =~= old(out)@.push((48 + n as nat) as u8));
        }
    } else {
        push_dec(n / 10, out);
        let ghost mid = out@;
        out.push(48 + ((n % 10) as u8));
        proof {
            assert(n as nat / 10 == (n / 10) as nat);
            assert(old(out)@ + dec_digits(n as nat) =~= mid.push((48 + n as nat % 10) as u8));
        }
    }
}

/// The name of the work unit for chunk `i`, as bytes.
pub fn subtask_name(i: usize) -> (r: Vec<u8>)
    ensures
        r@ == name_of(i as nat),
{
    let mut v: Vec<u8> = Vec::new();
    v.push(115);
    v.push(117);
    v.push(98);
    v.push(116);
    v.push(97);
    v.push(115);
    v.push(107);
    proof {
        assert(v@ =~= subtask_prefix());
    }
    proof {
        assert(i as u64 as nat == i as nat);
    }
    push_dec(i as u64, &mut v);
    v
}

/// "in.txt" as bytes.
fn input_file_vec() -> (r: Vec<u8>)
    ensures
        r@ == input_file_name(),
{
    let mut v: Vec<u8> = Vec::new();
    v.push(105);
    v.push(110);
    v.push(46);
    v.push(116);
    v.push(120);
    v.push(116);
    proof {
        assert(v@ =~= input_file_name());
    }
    v
}

/// "in.wav" as bytes.
fn output_file_vec() -> (r: Vec<u8>)
    ensures
        r@ == output_file_name(),
{
    let mut v: Vec<u8> = Vec::new();
    v.push(105);
    v.push(110);
    v.push(46);
    v.push(119);
    v.push(97);
    v.push(118);
    proof {
        assert(v@ =~= output_file_name());
    }
    v
}

/// `<workspace>/in` as bytes.
fn input_dir_vec(workspace: &Vec<u8>) -> (r: Vec<u8>)
    ensures
        r@ == input_dir_of(workspace@),
{
    let mut p = copy_bytes(workspace);
    p.push(47);
    p.push(105);
    p.push(110);
    proof {
        assert(p@ =~= input_dir_of(workspace@));
    }
    p
}

/// `<workspace>/out` as bytes.
fn output_dir_vec(workspace: &Vec<u8>) -> (r: Vec<u8>)
    ensures
        r@ == output_dir_of(workspace@),
{
    let mut p = copy_bytes(workspace);
    p.push(47);
    p.push(111);
    p.push(117);
    p.push(116);
    proof {
        assert(p@ =~= output_dir_of(workspace@));
    }
    p
}

/// Builds the task descriptor and the ordered output-path list for the
/// given chunks under the given workspace directory.
///
/// The returned path list has one entry per chunk, in ascending chunk
/// index; its `i`-th entry is exactly the output path of subtask `i`.
/// That positional ordering, not the subtask names, is what reassembly
/// later relies on.
pub fn build_task(chunks: &Vec<Chunk>, workspace: &Vec<u8>) -> (r: (TaskDescriptor, Vec<Vec<u8>>))
    ensures
        descriptor_wf(r.0, workspace@, chunks@.len() as nat),
        r.1@.len() == chunks@.len(),
        forall|i: int|
            0 <= i < chunks@.len() ==> (#[trigger] r.1@[i])@ == output_path_of(
                workspace@,
                i as nat,
            ),
{
    let input_dir = input_dir_vec(workspace);
    let output_dir = output_dir_vec(workspace);
    let mut subtasks: Vec<SubtaskSpec> = Vec::new();
    let mut output_paths: Vec<Vec<u8>> = Vec::new();
    let mut i: usize = 0;
    while i < chunks.len()
        invariant
            i <= chunks@.len(),
            input_dir@ == input_dir_of(workspace@),
            output_dir@ == output_dir_of(workspace@),
            subtasks@.len() == i,
            output_paths@.len() == i,
            forall|k: int| 0 <= k < i ==> subtask_wf(#[trigger] subtasks@[k], workspace@, k as nat),
            forall|k: int|
                0 <= k < i ==> (#[trigger] output_paths@[k])@ == output_path_of(
                    workspace@,
                    k as nat,
                ),
        decreases chunks@.len() - i,
    {
        let name = subtask_name(i);

        let mut input_path = copy_bytes(&input_dir);
        input_path.push(47);
        push_bytes(&mut input_path, &name);
        input_path.push(47);
        let in_file = input_file_vec();
        push_bytes(&mut input_path, &in_file);
        proof {
            assert(input_path@ =~= input_path_of(workspace@, i as nat));
        }

        let mut output_path = copy_bytes(&output_dir);
        output_path.push(47);
        push_bytes(&mut output_path, &name);
        output_path.push(47);
        let out_file = output_file_vec();
        push_bytes(&mut output_path, &out_file);
        proof {
            assert(output_path@ =~= output_path_of(workspace@, i as nat));
        }

        let path_copy = copy_bytes(&output_path);

        let mut exec_args: Vec<Vec<u8>> = Vec::new();
        exec_args.push(in_file);
        exec_args.push(out_file);
        proof {
            assert(exec_args.deep_view() =~~= seq![input_file_name(), output_file_name()]);
        }
        let mut declared: Vec<Vec<u8>> = Vec::new();
        declared.push(output_file_vec());
        proof {
            assert(declared.deep_view() =~~= seq![output_file_name()]);
        }

        subtasks.push(
            SubtaskSpec { name, input_path, output_path, exec_args, declared_output_files: declared },
        );
        output_paths.push(path_copy);
        i = i + 1;
    }

    let mut kind: Vec<u8> = Vec::new();
    kind.push(119);
    kind.push(97);
    kind.push(115);
    kind.push(109);
    proof {
        assert(kind@ =~= wasm_kind());
    }
    let mut display_name: Vec<u8> = Vec::new();
    display_name.push(103);
    display_name.push(95);
    display_name.push(102);
    display_name.push(108);
    display_name.push(105);
    display_name.push(116);
    display_name.push(101);
    proof {
        assert(display_name@ =~= task_display_name());
    }
    let mut timeout: Vec<u8> = Vec::new();
    timeout.push(48);
    timeout.push(48);
    timeout.push(58);
    timeout.push(49);
    timeout.push(48);
    timeout.push(58);
    timeout.push(48);
    timeout.push(48);
    proof {
        assert(timeout@ =~= task_timeout());
    }
    let subtask_timeout = copy_bytes(&timeout);
    let mut js_name: Vec<u8> = Vec::new();
    js_name.push(102);
    js_name.push(108);
    js_name.push(105);
    js_name.push(116);
    js_name.push(101);
    js_name.push(46);
    js_name.push(106);
    js_name.push(115);
    proof {
        assert(js_name@ =~= js_payload_name());
    }
    let mut wasm_name: Vec<u8> = Vec::new();
    wasm_name.push(102);
    wasm_name.push(108);
    wasm_name.push(105);
    wasm_name.push(116);
    wasm_name.push(101);
    wasm_name.push(46);
    wasm_name.push(119);
    wasm_name.push(97);
    wasm_name.push(115);
    wasm_name.push(109);
    proof {
        assert(wasm_name@ =~= wasm_payload_name());
    }

    let descriptor = TaskDescriptor {
        kind,
        display_name,
        bid: 1,
        timeout,
        subtask_timeout,
        js_name,
        wasm_name,
        input_dir,
        output_dir,
        subtasks,
    };
    (descriptor, output_paths)
}

} // verus!
