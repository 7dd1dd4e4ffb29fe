use std::rc::Rc;
use vstd::prelude::*;

use crate::base_type::{NamedBlock, PIMBaseType, PIMType, Size};
use crate::code_gen::{
    append_joined, base_code, block_code, decimal, decimal_string, edge_code, join, nat_digits,
    natural_string, TypeCodeGen,
};
use crate::semantics_analysis::views;
use crate::sem_type::{
    SemanticEdge, SemanticEdgeInst, SemanticGlobal, SemanticGraph, SemanticNodeInst, SemanticWalker,
};

verus! {

// ---------------------------------------------------------------------------
// Array slots: the arrays that the host stages into device memory
// ---------------------------------------------------------------------------

/// One array field of one node instance, staged as a buffer named `<var>_<field>`.
pub struct SlotV {
    pub name: Seq<char>,
    pub base: PIMBaseType,
    pub count: int,
}

/// An array field of a node instance of the first graph.
pub struct Slot {
    pub name: String,
    pub base: PIMBaseType,
    pub count: i32,
}

pub open spec fn slot_v(s: Slot) -> SlotV {
    SlotV { name: s.name@, base: s.base, count: s.count as int }
}

pub open spec fn slots_v(s: Seq<Slot>) -> Seq<SlotV> {
    s.map_values(|x: Slot| slot_v(x))
}

/// The array fields among `fs`, for the node instance named `var`.
pub open spec fn field_slots(var: Seq<char>, fs: Seq<crate::base_type::PIMField>) -> Seq<SlotV>
    decreases fs.len(),
{
    if fs.len() == 0 {
        Seq::empty()
    } else {
        let f = fs.last();
        field_slots(var, fs.drop_last()) + match f.pim_type {
            PIMType::Array(b, n) => seq![SlotV { name: var + "_"@ + f.varname@, base: b, count: n as int }],
            PIMType::Basic(_) => Seq::empty(),
        }
    }
}

pub open spec fn inst_slots(insts: Seq<Rc<SemanticNodeInst>>) -> Seq<SlotV>
    decreases insts.len(),
{
    if insts.len() == 0 {
        Seq::empty()
    } else {
        let n = insts.last();
        inst_slots(insts.drop_last()) + field_slots(n.varname@, n.node_type.fields@)
    }
}

/// The array fields of the node instances of the first graph, in order.
pub open spec fn array_slots(sem: SemanticGlobal) -> Seq<SlotV> {
    if sem.graphs@.len() > 0 {
        inst_slots(sem.graphs@[0].node_insts@)
    } else {
        Seq::empty()
    }
}

fn array_slots_exec(sem: &SemanticGlobal) -> (r: Vec<Slot>)
    ensures
        slots_v(r@) == array_slots(*sem),
{
    let mut r: Vec<Slot> = Vec::new();
    if sem.graphs.len() == 0 {
        assert(slots_v(r@) =~= Seq::<SlotV>::empty());
        return r;
    }
    let insts = &sem.graphs[0].node_insts;
    let mut i: usize = 0;
    assert(insts@.take(0) =~= Seq::<Rc<SemanticNodeInst>>::empty());
    assert(slots_v(r@) =~= Seq::<SlotV>::empty());
    while i < insts.len()
        invariant
            i <= insts@.len(),
            slots_v(r@) == inst_slots(insts@.take(i as int)),
        decreases insts@.len() - i,
    {
        let inst = &insts[i];
        let fs = &inst.node_type.fields;
        let ghost before = slots_v(r@);
        let mut k: usize = 0;
        assert(fs@.take(0) =~= Seq::<crate::base_type::PIMField>::empty());
        assert(before + field_slots(inst.varname@, fs@.take(0)) =~= before);
        while k < fs.len()
            invariant
                k <= fs@.len(),
                slots_v(r@) == before + field_slots(inst.varname@, fs@.take(k as int)),
            decreases fs@.len() - k,
        {
            proof {
                assert(fs@.take(k + 1).drop_last() =~= fs@.take(k as int));
            }
            let f = &fs[k];
            match f.pim_type {
                PIMType::Array(b, n) => {
                    let ghost old_r = r@;
                    let mut name = inst.varname.clone();
                    name.append("_");
                    name.append(f.varname.as_str());
                    let s = Slot { name, base: b, count: n };
                    r.push(s);
                    assert(slots_v(r@) =~= slots_v(old_r).push(slot_v(s)));
                    assert(slots_v(r@) =~= before + field_slots(inst.varname@, fs@.take(k + 1)));
                },
                PIMType::Basic(_) => {
                    assert(slots_v(r@) =~= before + field_slots(inst.varname@, fs@.take(k + 1)));
                },
            }
            k = k + 1;
        }
        proof {
            assert(fs@.take(k as int) =~= fs@);
            assert(insts@.take(i + 1).drop_last() =~= insts@.take(i as int));
        }
        i = i + 1;
    }
    assert(insts@.take(i as int) =~= insts@);
    r
}

// ---------------------------------------------------------------------------
// Lines emitted once per slot
// ---------------------------------------------------------------------------

/// The kinds of line that the emitted programs repeat for each staged array.
#[derive(Clone, Copy, PartialEq, Eq, Structural)]
pub enum LineKind {
    /// Host: the buffer's pointer declaration.
    Declare,
    /// Host: allocation of the buffer, its result buffer and a staging alias.
    Allocate,
    /// Host: reading the inputs into the buffer.
    ReadInput,
    /// Host: the result buffer as an argument of `kernel_host`.
    HostArg,
    /// Host: the transfer of the buffer to device memory.
    Push,
    /// Host: release of the buffer and of its result buffer.
    Free,
    /// Device: the MRAM base address of the array.
    BaseAddr,
    /// Device: the per-tasklet cache of the array.
    Cache,
    /// Device: the read of the current block into the cache.
    MramRead,
    /// Device: the cache as an argument of `kernel_dpu`.
    KernelArg,
}

pub open spec fn slot_line(k: LineKind, s: SlotV) -> Seq<char> {
    let t = base_code(s.base);
    let n = s.name;
    match k {
        LineKind::Declare => "static "@ + t + "* "@ + n + ";\n"@ + "static "@ + t + "* "@ + n
            + "_val;\n"@,
        LineKind::Allocate => "\t"@ + n + " = malloc("@ + decimal(s.count) + " * nr_of_dpus * sizeof("@
            + t + "));\n"@ + "\t"@ + n + "_val = malloc("@ + decimal(s.count)
            + " * nr_of_dpus * sizeof("@ + t + "));\n"@ + "\t"@ + t + "* buffer_"@ + n + " = "@ + n
            + ";\n"@,
        LineKind::ReadInput => "\tread_input("@ + n + ", "@ + decimal(s.count) + ");\n"@,
        LineKind::HostArg => "\t\t\t"@ + n + "_val,\n"@,
        LineKind::Push => "\t\tDPU_FOREACH(dpu_set, dpu, i) {\n\t\t\tDPU_ASSERT(dpu_prepare_xfer(dpu, buffer_"@
            + n
            + " + input_size_dpu_8bytes * i));\n\t\t}\n\t\tDPU_ASSERT(dpu_push_xfer(dpu_set, DPU_XFER_TO_DPU, DPU_MRAM_HEAP_POINTER_NAME, last_loc, dpu_input_size_bytes, DPU_XFER_DEFAULT));\n\t\tlast_loc += dpu_input_size_bytes;\n"@,
        LineKind::Free => "\tfree("@ + n + ");\n\tfree("@ + n + "_val);\n"@,
        LineKind::BaseAddr => "\tuint32_t mram_base_addr_"@ + n
            + " = (uint32_t)(DPU_MRAM_HEAP_POINTER + input_size_dpu_bytes_transfer * i);\n\ti++;\n"@,
        LineKind::Cache => "\t"@ + t + " *cache_"@ + n + " = ("@ + t + " *) mem_alloc(BLOCK_SIZE);\n"@,
        LineKind::MramRead => "\t\tmram_read((__mram_ptr void const*)(mram_base_addr_"@ + n
            + " + byte_index), cache_"@ + n + ", l_size_bytes);\n"@,
        LineKind::KernelArg => "\t\t\tcache_"@ + n + ",\n"@,
    }
}

/// The line of kind `k` for each slot, in order.
pub open spec fn slot_lines(k: LineKind, ss: Seq<SlotV>) -> Seq<char>
    decreases ss.len(),
{
    if ss.len() == 0 {
        Seq::empty()
    } else {
        slot_lines(k, ss.drop_last()) + slot_line(k, ss.last())
    }
}

fn slot_line_exec(k: LineKind, s: &Slot) -> (r: String)
    ensures
        r@ == slot_line(k, slot_v(*s)),
{
    let t = s.base.type_code();
    let n = s.name.as_str();
    let mut r = String::new();
    match k {
        LineKind::Declare => {
            r.append("static ");
            r.append(t.as_str());
            r.append("* ");
            r.append(n);
            r.append(";\n");
            r.append("static ");
            r.append(t.as_str());
            r.append("* ");
            r.append(n);
            r.append("_val;\n");
        },
        LineKind::Allocate => {
            let c = decimal_string(s.count as i64);
            r.append("\t");
            r.append(n);
            r.append(" = malloc(");
            r.append(c.as_str());
            r.append(" * nr_of_dpus * sizeof(");
            r.append(t.as_str());
            r.append("));\n");
            r.append("\t");
            r.append(n);
            r.append("_val = malloc(");
            r.append(c.as_str());
            r.append(" * nr_of_dpus * sizeof(");
            r.append(t.as_str());
            r.append("));\n");
            r.append("\t");
            r.append(t.as_str());
            r.append("* buffer_");
            r.append(n);
            r.append(" = ");
            r.append(n);
            r.append(";\n");
        },
        LineKind::ReadInput => {
            let c = decimal_string(s.count as i64);
            r.append("\tread_input(");
            r.append(n);
            r.append(", ");
            r.append(c.as_str());
            r.append(");\n");
        },
        LineKind::HostArg => {
            r.append("\t\t\t");
            r.append(n);
            r.append("_val,\n");
        },
        LineKind::Push => {
            r.append("\t\tDPU_FOREACH(dpu_set, dpu, i) {\n\t\t\tDPU_ASSERT(dpu_prepare_xfer(dpu, buffer_");
            r.append(n);
            r.append(
                " + input_size_dpu_8bytes * i));\n\t\t}\n\t\tDPU_ASSERT(dpu_push_xfer(dpu_set, DPU_XFER_TO_DPU, DPU_MRAM_HEAP_POINTER_NAME, last_loc, dpu_input_size_bytes, DPU_XFER_DEFAULT));\n\t\tlast_loc += dpu_input_size_bytes;\n",
            );
        },
        LineKind::Free => {
            r.append("\tfree(");
            r.append(n);
            r.append(");\n\tfree(");
            r.append(n);
            r.append("_val);\n");
        },
        LineKind::BaseAddr => {
            r.append("\tuint32_t mram_base_addr_");
            r.append(n);
            r.append(
                " = (uint32_t)(DPU_MRAM_HEAP_POINTER + input_size_dpu_bytes_transfer * i);\n\ti++;\n",
            );
        },
        LineKind::Cache => {
            r.append("\t");
            r.append(t.as_str());
            r.append(" *cache_");
            r.append(n);
            r.append(" = (");
            r.append(t.as_str());
            r.append(" *) mem_alloc(BLOCK_SIZE);\n");
        },
        LineKind::MramRead => {
            r.append("\t\tmram_read((__mram_ptr void const*)(mram_base_addr_");
            r.append(n);
            r.append(" + byte_index), cache_");
            r.append(n);
            r.append(", l_size_bytes);\n");
        },
        LineKind::KernelArg => {
            r.append("\t\t\tcache_");
            r.append(n);
            r.append(",\n");
        },
    }
    assert(r@ =~= slot_line(k, slot_v(*s)));
    r
}

fn append_slot_lines(out: &mut String, k: LineKind, slots: &Vec<Slot>)
    ensures
        final(out)@ == old(out)@ + slot_lines(k, slots_v(slots@)),
{
    let ghost start = out@;
    let ghost sv = slots_v(slots@);
    let mut i: usize = 0;
    assert(sv.take(0) =~= Seq::<SlotV>::empty());
    assert(start + slot_lines(k, sv.take(0)) =~= start);
    while i < slots.len()
        invariant
            sv == slots_v(slots@),
            i <= slots@.len(),
            out@ == start + slot_lines(k, sv.take(i as int)),
        decreases slots@.len() - i,
    {
        proof {
            assert(sv.take(i + 1).drop_last() =~= sv.take(i as int));
        }
        let l = slot_line_exec(k, &slots[i]);
        out.append(l.as_str());
        assert(out@ =~= start + slot_lines(k, sv.take(i + 1)));
        i = i + 1;
    }
    assert(sv.take(i as int) =~= sv);
}

/// Largest byte size of a staged array, 0 when there is none.
pub open spec fn max_slot_bytes(ss: Seq<SlotV>) -> int
    decreases ss.len(),
{
    if ss.len() == 0 {
        0
    } else {
        let rest = max_slot_bytes(ss.drop_last());
        let b = ss.last().count * ss.last().base.spec_size();
        if b > rest {
            b
        } else {
            rest
        }
    }
}

fn max_slot_bytes_exec(slots: &Vec<Slot>) -> (r: i64)
    ensures
        r == max_slot_bytes(slots_v(slots@)),
{
    let ghost sv = slots_v(slots@);
    let mut m: i64 = 0;
    let mut i: usize = 0;
    while i < slots.len()
        invariant
            sv == slots_v(slots@),
            i <= slots@.len(),
            m == max_slot_bytes(sv.take(i as int)),
            -0x4_0000_0000 <= m <= 0x4_0000_0000,
        decreases slots@.len() - i,
    {
        proof {
            assert(sv.take(i + 1).drop_last() =~= sv.take(i as int));
        }
        let b = PIMType::Array(slots[i].base, slots[i].count).size_byte();
        if b > m {
            m = b;
        }
        i = i + 1;
        assert(-0x4_0000_0000 <= b <= 0x4_0000_0000) by {
            let s = slots@[i - 1];
            assert(1 <= s.base.spec_size() <= 8);
            assert(-0x8000_0000 <= s.count <= 0x7fff_ffff);
            assert(-0x4_0000_0000 <= (s.count as int) * s.base.spec_size() <= 0x4_0000_0000)
                by (nonlinear_arith)
                requires
                    1 <= s.base.spec_size() <= 8,
                    -0x8000_0000 <= s.count <= 0x7fff_ffff,
            ;
        }
    }
    assert(sv.take(i as int) =~= sv);
    m
}

// ---------------------------------------------------------------------------
// Declarations shared by both programs
// ---------------------------------------------------------------------------

pub open spec fn node_structs(ns: Seq<Rc<NamedBlock>>) -> Seq<char>
    decreases ns.len(),
{
    if ns.len() == 0 {
        Seq::empty()
    } else {
        node_structs(ns.drop_last()) + block_code(*ns.last()) + ";\n\n"@
    }
}

pub open spec fn edge_structs(es: Seq<Rc<SemanticEdge>>) -> Seq<char>
    decreases es.len(),
{
    if es.len() == 0 {
        Seq::empty()
    } else {
        edge_structs(es.drop_last()) + edge_code(*es.last()) + ";\n\n"@
    }
}

pub open spec fn walker_aliases(ws: Seq<Rc<SemanticWalker>>) -> Seq<char>
    decreases ws.len(),
{
    if ws.len() == 0 {
        Seq::empty()
    } else {
        let w = ws.last();
        walker_aliases(ws.drop_last()) + "using "@ + w.name@ + " = "@ + w.node_type.name@ + ";\n"@
    }
}

/// One struct per node declaration and per edge declaration, in declaration order, then
/// one alias per walker.
pub open spec fn type_definitions(sem: SemanticGlobal) -> Seq<char> {
    "// Struct definitions for nodes\n"@ + node_structs(sem.nodes@)
        + "// Struct definitions for edges\n"@ + edge_structs(sem.edges@)
        + "// Struct definitions for walkers\n"@ + walker_aliases(sem.walkers@)
}

/// The C declarations of every type of the program.
pub fn type_definitions_code(sem: &SemanticGlobal) -> (r: String)
    ensures
        r@ == type_definitions(*sem),
{
    let mut r = String::new();
    r.append("// Struct definitions for nodes\n");
    let ghost s0 = r@;
    let mut i: usize = 0;
    while i < sem.nodes.len()
        invariant
            i <= sem.nodes@.len(),
            r@ == s0 + node_structs(sem.nodes@.take(i as int)),
        decreases sem.nodes@.len() - i,
    {
        proof {
            assert(sem.nodes@.take(i + 1).drop_last() =~= sem.nodes@.take(i as int));
        }
        let c = sem.nodes[i].type_code();
        r.append(c.as_str());
        r.append(";\n\n");
        assert(r@ =~= s0 + node_structs(sem.nodes@.take(i + 1)));
        i = i + 1;
    }
    assert(sem.nodes@.take(i as int) =~= sem.nodes@);
    r.append("// Struct definitions for edges\n");
    let ghost s1 = r@;
    let mut i: usize = 0;
    while i < sem.edges.len()
        invariant
            i <= sem.edges@.len(),
            r@ == s1 + edge_structs(sem.edges@.take(i as int)),
        decreases sem.edges@.len() - i,
    {
        proof {
            assert(sem.edges@.take(i + 1).drop_last() =~= sem.edges@.take(i as int));
        }
        let c = sem.edges[i].type_code();
        r.append(c.as_str());
        r.append(";\n\n");
        assert(r@ =~= s1 + edge_structs(sem.edges@.take(i + 1)));
        i = i + 1;
    }
    assert(sem.edges@.take(i as int) =~= sem.edges@);
    r.append("// Struct definitions for walkers\n");
    let ghost s2 = r@;
    let mut i: usize = 0;
    while i < sem.walkers.len()
        invariant
            i <= sem.walkers@.len(),
            r@ == s2 + walker_aliases(sem.walkers@.take(i as int)),
        decreases sem.walkers@.len() - i,
    {
        proof {
            assert(sem.walkers@.take(i + 1).drop_last() =~= sem.walkers@.take(i as int));
        }
        let w = &sem.walkers[i];
        r.append("using ");
        r.append(w.name.as_str());
        r.append(" = ");
        r.append(w.node_type.name.as_str());
        r.append(";\n");
        assert(r@ =~= s2 + walker_aliases(sem.walkers@.take(i + 1)));
        i = i + 1;
    }
    assert(sem.walkers@.take(i as int) =~= sem.walkers@);
    assert(r@ =~= type_definitions(*sem));
    r
}

// ---------------------------------------------------------------------------
// The host program
// ---------------------------------------------------------------------------

pub const HOST_HEADER: &'static str = "// Generated C code\n#include <stdint.h>\n#include <stdio.h>\n#include <string.h>\n#include <stdlib.h>\n#include <stdbool.h>\n#include <dpu.h>\n#include <dpu_log.h>\n#include <unistd.h>\n#include <getopt.h>\n#include <assert.h>\n#include \"kernel.c\"\n\n#include <../support/common.h>\n#include <../support/timer.h>\n#include <../support/params.h>\n\n#ifndef DPU_BINARY\n#define DPU_BINARY \"./dpu_binary.bin\"\n#endif\n\n";

pub const HOST_MAIN_OPEN: &'static str = "\nint main(int argc, char **argv) {\n\tstruct Params p = input_params(argc, argv);\n\n\tstruct dpu_set_t dpu_set, dpu;\n\tuint32_t nr_of_dpus;\n\n\tDPU_ASSERT(dpu_alloc(NR_DPUS, NULL, &dpu_set));\n\tDPU_ASSERT(dpu_load(dpu_set, DPU_BINARY, NULL));\n\tDPU_ASSERT(dpu_get_nr_dpus(dpu_set, &nr_of_dpus));\n\tprintf(\"Allocated %d DPU(s)\\n\", nr_of_dpus);\n\tunsigned int i = 0;\n\n\tconst unsigned int input_size = p.exp == 0 ? p.input_size * nr_of_dpus : p.input_size;\n\tconst unsigned int input_size_8bytes = input_size;\n\tconst unsigned int input_size_dpu_8bytes = divceil(input_size, nr_of_dpus);\n\n\t// Input/output allocation and initialization\n";

pub const HOST_LOOP_OPEN: &'static str = "\tTimer timer;\n\tprintf(\"NR_TASKLETS\\t%d\\tBL\\t%d\\n\", NR_TASKLETS, BL);\n\n\tfor(int rep = 0; rep < p.n_warmup + p.n_reps; rep++) {\n\t\t// Compute output on CPU (performance comparison and verification purposes)\n\t\tif(rep >= p.n_warmup)\n\t\t\tstart(&timer, 0, rep - p.n_warmup);\n\t\tkernel_host(\n";

pub const HOST_STAGE: &'static str = "\t\t\tinput_size);\n\t\tif(rep >= p.n_warmup)\n\t\t\tstop(&timer, 0);\n\n\t\tprintf(\"Load input data\\n\");\n\t\tif(rep >= p.n_warmup)\n\t\t\tstart(&timer, 1, rep - p.n_warmup);\n\t\tdpu_arguments_t input_arguments[NR_DPUS];\n\t\tfor(i=0; i<nr_of_dpus; i++) {\n\t\t\tinput_arguments[i].size=dpu_input_size_bytes;\n\t\t\tinput_arguments[i].transfer_size=dpu_input_size_bytes;\n\t\t\tinput_arguments[i].kernel=kernel_dpu;\n\t\t}\n\t\ti = 0;\n\t\tDPU_FOREACH(dpu_set, dpu, i) {\n\t\t\tDPU_ASSERT(dpu_prepare_xfer(dpu, &input_arguments[i]));\n\t\t}\n\t\tDPU_ASSERT(dpu_push_xfer(dpu_set, DPU_XFER_TO_DPU, \"DPU_INPUT_ARGUMENTS\", 0, sizeof(input_arguments[0]), DPU_XFER_DEFAULT));\n\n\t\tint last_loc = 0;\n";

pub const HOST_LAUNCH: &'static str = "\t\tif(rep >= p.n_warmup)\n\t\t\tstop(&timer, 1);\n\n\t\tprintf(\"Run program on DPU(s)\\n\");\n\t\tif(rep >= p.n_warmup)\n\t\t\tstart(&timer, 2, rep - p.n_warmup);\n\t\tDPU_ASSERT(dpu_launch(dpu_set, DPU_SYNCHRONOUS));\n\t\tif(rep >= p.n_warmup)\n\t\t\tstop(&timer, 2);\n\n#if PRINT\n\t\t{\n\t\t\tunsigned int each_dpu = 0;\n\t\t\tprintf(\"Display DPU Logs\\n\");\n\t\t\tDPU_FOREACH (dpu_set, dpu) {\n\t\t\t\tprintf(\"DPU#%d:\\n\", each_dpu);\n\t\t\t\tDPU_ASSERT(dpulog_read_for_dpu(dpu.dpu, stdout));\n\t\t\t\teach_dpu++;\n\t\t\t}\n\t\t}\n#endif\n\n\t\tprintf(\"Retrieve results\\n\");\n\t\tif(rep >= p.n_warmup)\n\t\t\tstart(&timer, 3, rep - p.n_warmup);\n\t\ti = 0;\n";

pub const HOST_RETRIEVE_OPEN: &'static str = "\t\tDPU_FOREACH(dpu_set, dpu, i) {\n\t\t\tDPU_ASSERT(dpu_prepare_xfer(dpu, ";

pub const HOST_RETRIEVE_CLOSE: &'static str = "_val + input_size_dpu_8bytes * i));\n\t\t}\n\t\tDPU_ASSERT(dpu_push_xfer(dpu_set, DPU_XFER_FROM_DPU, DPU_MRAM_HEAP_POINTER_NAME, last_loc - dpu_input_size_bytes, dpu_input_size_bytes, DPU_XFER_DEFAULT));\n";

pub const HOST_LOOP_CLOSE: &'static str = "\t\tif(rep >= p.n_warmup)\n\t\t\tstop(&timer, 3);\n\t}\n\n\tprintf(\"CPU \");\n\tprint(&timer, 0, p.n_reps);\n\tprintf(\"CPU-DPU \");\n\tprint(&timer, 1, p.n_reps);\n\tprintf(\"DPU Kernel \");\n\tprint(&timer, 2, p.n_reps);\n\tprintf(\"DPU-CPU \");\n\tprint(&timer, 3, p.n_reps);\n\n\tbool status = true;\n\tfor (i = 0; i < input_size; i++) {\n";

pub const HOST_CHECK_CLOSE: &'static str = "\t}\n\n\t// Deallocation\n";

pub const HOST_END: &'static str = "\tDPU_ASSERT(dpu_free(dpu_set));\n\n\treturn status ? 0 : -1;\n}\n";

/// The comparison of the last staged array with its staging buffer, which clears
/// `status` on a difference.
pub open spec fn host_check(ss: Seq<SlotV>) -> Seq<char> {
    if ss.len() == 0 {
        Seq::empty()
    } else {
        let n = ss.last().name;
        "\t\tif("@ + n + "[i] != buffer_"@ + n + "[i])  {status = false;}\n"@
    }
}

/// The read-back of the last staged array, which holds the results.
pub open spec fn host_retrieve(ss: Seq<SlotV>) -> Seq<char> {
    if ss.len() == 0 {
        Seq::empty()
    } else {
        HOST_RETRIEVE_OPEN@ + ss.last().name + HOST_RETRIEVE_CLOSE@
    }
}

/// The host program: type declarations (the graph's instances are declared by
/// `main_function`, not here), one pointer pair per staged array, and a `main`
/// that allocates `NR_DPUS` units, loads the device binary, allocates and reads each
/// array, and runs `n_warmup + n_reps` timed rounds that stage the arrays to device
/// memory, launch synchronously and read the results back, with the device logs under
/// `PRINT`; it exits with 0 when the last array matches its staging buffer, -1 otherwise.
pub open spec fn host_program(sem: SemanticGlobal) -> Seq<char> {
    let ss = array_slots(sem);
    HOST_HEADER@ + type_definitions(sem) + "// Pointer declaration\n"@ + slot_lines(
        LineKind::Declare,
        ss,
    ) + HOST_MAIN_OPEN@ + slot_lines(LineKind::Allocate, ss)
        + "\n\tunsigned int dpu_input_size_bytes = "@ + decimal(max_slot_bytes(ss))
        + "/nr_of_dpus;\n\n"@ + slot_lines(LineKind::ReadInput, ss) + HOST_LOOP_OPEN@ + slot_lines(
        LineKind::HostArg,
        ss,
    ) + HOST_STAGE@ + slot_lines(LineKind::Push, ss) + HOST_LAUNCH@ + host_retrieve(ss)
        + HOST_LOOP_CLOSE@ + host_check(ss) + HOST_CHECK_CLOSE@ + slot_lines(LineKind::Free, ss)
        + HOST_END@
}

/// The C text of the host program.
#[verifier::rlimit(60)]
pub fn host_code(sem: &SemanticGlobal) -> (r: String)
    ensures
        r@ == host_program(*sem),
{
    let slots = array_slots_exec(sem);
    let ghost ss = slots_v(slots@);
    let mut r = String::new();
    r.append(HOST_HEADER);
    let defs = type_definitions_code(sem);
    r.append(defs.as_str());
    r.append("// Pointer declaration\n");
    append_slot_lines(&mut r, LineKind::Declare, &slots);
    r.append(HOST_MAIN_OPEN);
    append_slot_lines(&mut r, LineKind::Allocate, &slots);
    r.append("\n\tunsigned int dpu_input_size_bytes = ");
    let m = decimal_string(max_slot_bytes_exec(&slots));
    r.append(m.as_str());
    r.append("/nr_of_dpus;\n\n");
    append_slot_lines(&mut r, LineKind::ReadInput, &slots);
    r.append(HOST_LOOP_OPEN);
    append_slot_lines(&mut r, LineKind::HostArg, &slots);
    r.append(HOST_STAGE);
    append_slot_lines(&mut r, LineKind::Push, &slots);
    r.append(HOST_LAUNCH);
    if slots.len() > 0 {
        r.append(HOST_RETRIEVE_OPEN);
        r.append(slots[slots.len() - 1].name.as_str());
        r.append(HOST_RETRIEVE_CLOSE);
    }
    r.append(HOST_LOOP_CLOSE);
    if slots.len() > 0 {
        let n = slots[slots.len() - 1].name.as_str();
        r.append("\t\tif(");
        r.append(n);
        r.append("[i] != buffer_");
        r.append(n);
        r.append("[i])  {status = false;}\n");
    }
    r.append(HOST_CHECK_CLOSE);
    append_slot_lines(&mut r, LineKind::Free, &slots);
    r.append(HOST_END);
    assert(r@ =~= host_program(*sem));
    r
}

// ---------------------------------------------------------------------------
// The device program
// ---------------------------------------------------------------------------

pub const DPU_INCLUDES: &'static str = "// Generated C code\n#include <stdint.h>\n#include <stdio.h>\n#include <defs.h>\n#include <mram.h>\n#include <alloc.h>\n#include <perfcounter.h>\n#include <barrier.h>\n";

pub const DEVICE_HEADER: &'static str = "#include \"kernel.c\"\n\n#include <../support/common.h>\n__host dpu_arguments_t DPU_INPUT_ARGUMENTS;\n\nBARRIER_INIT(my_barrier, NR_TASKLETS);\n\nextern int main_kernel1(void);\n\nint (*kernels[nr_kernels])(void) = {main_kernel1};\n\nint main(void) {\n\treturn kernels[DPU_INPUT_ARGUMENTS.kernel]();\n}\n\nint main_kernel1() {\n\tunsigned int tasklet_id = me();\n\tif (tasklet_id == 0){mem_reset();}\n\n\tbarrier_wait(&my_barrier);\n\n\tuint32_t input_size_dpu_bytes = DPU_INPUT_ARGUMENTS.size;\n\tuint32_t input_size_dpu_bytes_transfer = DPU_INPUT_ARGUMENTS.transfer_size;\n\n\t// Address of the current processing block in MRAM\n\tuint32_t base_tasklet = tasklet_id << BLOCK_SIZE_LOG2;\n\tint i = 0;\n";

pub const DEVICE_CACHES: &'static str = "\n\t// Initialize a local cache to store the MRAM block\n";

pub const DEVICE_LOOP_OPEN: &'static str = "\tfor(unsigned int byte_index = base_tasklet; byte_index < input_size_dpu_bytes; byte_index += BLOCK_SIZE * NR_TASKLETS) {\n\t\tuint32_t l_size_bytes = (byte_index + BLOCK_SIZE >= input_size_dpu_bytes) ? (input_size_dpu_bytes - byte_index) : BLOCK_SIZE;\n\n";

pub const DEVICE_KERNEL_OPEN: &'static str = "\t\tkernel_dpu(\n";

pub const DEVICE_KERNEL_CLOSE: &'static str = "\t\t\tl_size_bytes >> DIV);\n";

pub const DEVICE_END: &'static str = "\t}\n\n\treturn 0;\n}\n";

/// The write-back of the last cache, which holds the results.
pub open spec fn device_write_back(ss: Seq<SlotV>) -> Seq<char> {
    if ss.len() == 0 {
        Seq::empty()
    } else {
        let n = ss.last().name;
        "\t\tmram_write(cache_"@ + n + ", (__mram_ptr void*)(mram_base_addr_"@ + n
            + " + byte_index), l_size_bytes);\n"@
    }
}

/// The device program: `main_kernel1` resets scratch memory on tasklet 0, joins the
/// barrier, computes a base address per staged array, allocates a per-tasklet cache of
/// `BLOCK_SIZE` per array, and walks the blocks of `input_size_dpu_bytes`, reading each
/// block into the caches, calling `kernel_dpu` and writing the last cache back.
pub open spec fn device_program(sem: SemanticGlobal) -> Seq<char> {
    let ss = array_slots(sem);
    DPU_INCLUDES@ + DEVICE_HEADER@ + slot_lines(LineKind::BaseAddr, ss) + DEVICE_CACHES@ + slot_lines(
        LineKind::Cache,
        ss,
    ) + DEVICE_LOOP_OPEN@ + slot_lines(LineKind::MramRead, ss) + DEVICE_KERNEL_OPEN@
        + slot_lines(LineKind::KernelArg, ss) + DEVICE_KERNEL_CLOSE@ + device_write_back(ss)
        + DEVICE_END@
}

/// The C text of the device program.
pub fn device_code(sem: &SemanticGlobal) -> (r: String)
    ensures
        r@ == device_program(*sem),
{
    let slots = array_slots_exec(sem);
    let mut r = String::new();
    r.append(DPU_INCLUDES);
    r.append(DEVICE_HEADER);
    append_slot_lines(&mut r, LineKind::BaseAddr, &slots);
    r.append(DEVICE_CACHES);
    append_slot_lines(&mut r, LineKind::Cache, &slots);
    r.append(DEVICE_LOOP_OPEN);
    append_slot_lines(&mut r, LineKind::MramRead, &slots);
    r.append(DEVICE_KERNEL_OPEN);
    append_slot_lines(&mut r, LineKind::KernelArg, &slots);
    r.append(DEVICE_KERNEL_CLOSE);
    if slots.len() > 0 {
        let n = slots[slots.len() - 1].name.as_str();
        r.append("\t\tmram_write(cache_");
        r.append(n);
        r.append(", (__mram_ptr void*)(mram_base_addr_");
        r.append(n);
        r.append(" + byte_index), l_size_bytes);\n");
    }
    r.append(DEVICE_END);
    assert(r@ =~= device_program(*sem));
    r
}

// ---------------------------------------------------------------------------
// Headers and shared declarations
// ---------------------------------------------------------------------------

pub const SUPPORT_INCLUDES: &'static str = "#include <stdint.h>\n";

/// The includes of the host program.
pub fn includes_host() -> (r: String)
    ensures
        r@ == HOST_HEADER@,
{
    String::from_str(HOST_HEADER)
}

/// The includes of the device program.
pub fn includes_dpu() -> (r: String)
    ensures
        r@ == DPU_INCLUDES@,
{
    String::from_str(DPU_INCLUDES)
}

/// The includes of the support header.
pub fn includes_support() -> (r: String)
    ensures
        r@ == SUPPORT_INCLUDES@,
{
    String::from_str(SUPPORT_INCLUDES)
}

pub const SHARED_OPEN: &'static str = "#ifndef SHARED_DEFINITIONS\n#define SHARED_DEFINITIONS\n";

pub const SHARED_CLOSE: &'static str = "#endif\n";

/// The type declarations, guarded for inclusion from both programs.
pub fn shared_definitions(sem: &SemanticGlobal) -> (r: String)
    ensures
        r@ == SHARED_OPEN@ + type_definitions(*sem) + SHARED_CLOSE@,
{
    let mut r = String::from_str(SHARED_OPEN);
    let defs = type_definitions_code(sem);
    r.append(defs.as_str());
    r.append(SHARED_CLOSE);
    r
}

pub const SUPPORT_HEADER: &'static str = "#include \"support.h\"\n";

/// `T v_init();` for a node instance `v` of type `T`.
pub open spec fn node_init_decl(n: SemanticNodeInst) -> Seq<char> {
    n.node_type.name@ + " "@ + n.varname@ + "_init();"@
}

/// `E a_b_init();` for an edge instance of type `E` from `a` to `b`.
pub open spec fn edge_init_decl(e: SemanticEdgeInst) -> Seq<char> {
    e.edge_type.named_block.name@ + " "@ + e.from_var.varname@ + "_"@ + e.to_var.varname@
        + "_init();"@
}

/// A header that asks the user for one initializer per node instance and per edge
/// instance of the graph.
pub open spec fn init_declarations(g: SemanticGraph) -> Seq<char> {
    SUPPORT_HEADER@ + "\n"@ + join(
        g.node_insts@.map_values(|n: Rc<SemanticNodeInst>| node_init_decl(*n)),
        "\n"@,
    ) + "\n"@ + join(
        g.edge_insts@.map_values(|e: Rc<SemanticEdgeInst>| edge_init_decl(*e)),
        "\n"@,
    )
}

/// The declarations of the initializers of a graph's instances.
pub fn initialization_declaration(graph: &SemanticGraph) -> (r: String)
    ensures
        r@ == init_declarations(*graph),
{
    let mut nodes: Vec<String> = Vec::new();
    let mut i: usize = 0;
    while i < graph.node_insts.len()
        invariant
            i <= graph.node_insts@.len(),
            views(nodes@) == graph.node_insts@.take(i as int).map_values(
                |n: Rc<SemanticNodeInst>| node_init_decl(*n),
            ),
        decreases graph.node_insts@.len() - i,
    {
        let n = &graph.node_insts[i];
        let mut l = n.node_type.name.clone();
        l.append(" ");
        l.append(n.varname.as_str());
        l.append("_init();");
        let ghost old_nodes = nodes@;
        nodes.push(l);
        i = i + 1;
        assert(views(nodes@) =~= graph.node_insts@.take(i as int).map_values(
            |n: Rc<SemanticNodeInst>| node_init_decl(*n),
        )) by {
            assert(views(nodes@) =~= views(old_nodes).push(l@));
        }
    }
    assert(graph.node_insts@.take(i as int) =~= graph.node_insts@);
    let mut edges: Vec<String> = Vec::new();
    let mut k: usize = 0;
    while k < graph.edge_insts.len()
        invariant
            k <= graph.edge_insts@.len(),
            views(edges@) == graph.edge_insts@.take(k as int).map_values(
                |e: Rc<SemanticEdgeInst>| edge_init_decl(*e),
            ),
        decreases graph.edge_insts@.len() - k,
    {
        let e = &graph.edge_insts[k];
        let mut l = e.edge_type.named_block.name.clone();
        l.append(" ");
        l.append(e.from_var.varname.as_str());
        l.append("_");
        l.append(e.to_var.varname.as_str());
        l.append("_init();");
        let ghost old_edges = edges@;
        edges.push(l);
        k = k + 1;
        assert(views(edges@) =~= graph.edge_insts@.take(k as int).map_values(
            |e: Rc<SemanticEdgeInst>| edge_init_decl(*e),
        )) by {
            assert(views(edges@) =~= views(old_edges).push(l@));
        }
    }
    assert(graph.edge_insts@.take(k as int) =~= graph.edge_insts@);
    let mut r = String::from_str(SUPPORT_HEADER);
    r.append("\n");
    append_joined(&mut r, &nodes, "\n");
    r.append("\n");
    append_joined(&mut r, &edges, "\n");
    assert(r@ =~= init_declarations(*graph));
    r
}

pub open spec fn node_inst_decl(n: SemanticNodeInst) -> Seq<char> {
    n.node_type.name@ + " "@ + n.varname@ + "_inst;"@
}

pub open spec fn node_init_call(n: SemanticNodeInst) -> Seq<char> {
    n.varname@ + " = "@ + n.varname@ + "_init();"@
}

pub open spec fn edge_inst_decl(e: SemanticEdgeInst) -> Seq<char> {
    e.edge_type.named_block.name@ + " "@ + e.from_var.varname@ + "_"@ + e.to_var.varname@
        + "_inst;"@
}

pub open spec fn edge_init_call(e: SemanticEdgeInst) -> Seq<char> {
    e.from_var.varname@ + " = "@ + e.to_var.varname@ + "_"@ + e.edge_type.named_block.name@
        + "_init();"@
}

pub const MAIN_OPEN: &'static str = "int main(int argc, char **argv) {\n  // Instantiate all the nodes\n  ";

pub const MAIN_EDGES: &'static str = "\n  // Instantiate all the edges\n  ";

pub const MAIN_DPU: &'static str = "\n  // Initialize the DPU\n  struct dpu_set_t set, dpu;\nuint32_t checksum;\n\nDPU_ASSERT(dpu_alloc(";

pub const MAIN_INIT_NODES: &'static str = ", NULL, &set));\n\n  // Initialize the nodes\n  ";

pub const MAIN_INIT_EDGES: &'static str = "\n  // Initialize the edges\n  ";

pub const MAIN_CLOSE: &'static str = "\n  // Start the DPU\n  // Load the DPU binary\nDPU_ASSERT(dpu_load(set, DPU_BINARY));\n// Launch\nDPU_ASSERT(dpu_launch(set, DPU_SYNCHRONOUS));\n\n}\n";

/// A `main` for the first graph: an instance per node and edge, `core_num` units, an
/// initializer call per instance, then the load and launch of the device binary.
pub open spec fn main_text(g: SemanticGraph, core_num: nat) -> Seq<char> {
    let ns = g.node_insts@;
    let es = g.edge_insts@;
    MAIN_OPEN@ + join(ns.map_values(|n: Rc<SemanticNodeInst>| node_inst_decl(*n)), "\n"@)
        + MAIN_EDGES@ + join(es.map_values(|e: Rc<SemanticEdgeInst>| edge_inst_decl(*e)), "\n"@)
        + MAIN_DPU@ + nat_digits(core_num) + MAIN_INIT_NODES@ + join(
        ns.map_values(|n: Rc<SemanticNodeInst>| node_init_call(*n)),
        "\n"@,
    ) + MAIN_INIT_EDGES@ + join(es.map_values(|e: Rc<SemanticEdgeInst>| edge_init_call(*e)), "\n"@)
        + MAIN_CLOSE@
}

/// The host `main` of the first graph, for `core_num` units.
pub fn main_function(
    global: &SemanticGlobal,
    core_num: u64,
    _core_node_allocation: &Vec<Vec<Rc<SemanticNodeInst>>>,
) -> (r: String)
    requires
        global.graphs@.len() > 0,
    ensures
        r@ == main_text(global.graphs@[0], core_num as nat),
{
    let graph = &global.graphs[0];
    let ghost ns = graph.node_insts@;
    let ghost es = graph.edge_insts@;
    let mut decls: Vec<String> = Vec::new();
    let mut inits: Vec<String> = Vec::new();
    let mut i: usize = 0;
    while i < graph.node_insts.len()
        invariant
            ns == graph.node_insts@,
            i <= ns.len(),
            views(decls@) == ns.take(i as int).map_values(|n: Rc<SemanticNodeInst>| node_inst_decl(*n)),
            views(inits@) == ns.take(i as int).map_values(|n: Rc<SemanticNodeInst>| node_init_call(*n)),
        decreases ns.len() - i,
    {
        let n = &graph.node_insts[i];
        let mut d = n.node_type.name.clone();
        d.append(" ");
        d.append(n.varname.as_str());
        d.append("_inst;");
        let mut c = n.varname.clone();
        c.append(" = ");
        c.append(n.varname.as_str());
        c.append("_init();");
        let ghost (od, oi) = (decls@, inits@);
        decls.push(d);
        inits.push(c);
        i = i + 1;
        assert(views(decls@) =~= ns.take(i as int).map_values(
            |n: Rc<SemanticNodeInst>| node_inst_decl(*n),
        )) by {
            assert(views(decls@) =~= views(od).push(d@));
        }
        assert(views(inits@) =~= ns.take(i as int).map_values(
            |n: Rc<SemanticNodeInst>| node_init_call(*n),
        )) by {
            assert(views(inits@) =~= views(oi).push(c@));
        }
    }
    assert(ns.take(i as int) =~= ns);
    let mut edecls: Vec<String> = Vec::new();
    let mut einits: Vec<String> = Vec::new();
    let mut k: usize = 0;
    while k < graph.edge_insts.len()
        invariant
            es == graph.edge_insts@,
            k <= es.len(),
            views(edecls@) == es.take(k as int).map_values(|e: Rc<SemanticEdgeInst>| edge_inst_decl(*e)),
            views(einits@) == es.take(k as int).map_values(|e: Rc<SemanticEdgeInst>| edge_init_call(*e)),
        decreases es.len() - k,
    {
        let e = &graph.edge_insts[k];
        let mut d = e.edge_type.named_block.name.clone();
        d.append(" ");
        d.append(e.from_var.varname.as_str());
        d.append("_");
        d.append(e.to_var.varname.as_str());
        d.append("_inst;");
        let mut c = e.from_var.varname.clone();
        c.append(" = ");
        c.append(e.to_var.varname.as_str());
        c.append("_");
        c.append(e.edge_type.named_block.name.as_str());
        c.append("_init();");
        let ghost (od, oi) = (edecls@, einits@);
        edecls.push(d);
        einits.push(c);
        k = k + 1;
        assert(views(edecls@) =~= es.take(k as int).map_values(
            |e: Rc<SemanticEdgeInst>| edge_inst_decl(*e),
        )) by {
            assert(views(edecls@) =~= views(od).push(d@));
        }
        assert(views(einits@) =~= es.take(k as int).map_values(
            |e: Rc<SemanticEdgeInst>| edge_init_call(*e),
        )) by {
            assert(views(einits@) =~= views(oi).push(c@));
        }
    }
    assert(es.take(k as int) =~= es);
    let mut r = String::from_str(MAIN_OPEN);
    append_joined(&mut r, &decls, "\n");
    r.append(MAIN_EDGES);
    append_joined(&mut r, &edecls, "\n");
    r.append(MAIN_DPU);
    let cn = natural_string(core_num);
    r.append(cn.as_str());
    r.append(MAIN_INIT_NODES);
    append_joined(&mut r, &inits, "\n");
    r.append(MAIN_INIT_EDGES);
    append_joined(&mut r, &einits, "\n");
    r.append(MAIN_CLOSE);
    assert(r@ =~= main_text(global.graphs@[0], core_num as nat));
    r
}

} // verus!
