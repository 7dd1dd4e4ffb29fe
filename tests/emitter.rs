use dspimc::emitter::{
    device_code, host_code, includes_dpu, includes_host, includes_support,
    initialization_declaration, main_function, shared_definitions, type_definitions_code,
};
use dspimc::parser::parse_str;
use dspimc::sem_type::SemanticGlobal;
use dspimc::semantics_analysis::semantic_analysis;

fn ir(src: &str) -> SemanticGlobal {
    semantic_analysis(parse_str(src).unwrap()).unwrap()
}

const PROGRAM: &str = "node A { x: int32; v: int16[8]; }; node B { y: char; }; \
                       edge R A B { w: int32; }; walker W : A; \
                       graph { node A a1, a2; node B b1; edge R a1 b1 4; walker W a2; };";

#[test]
fn type_definitions_once_per_declaration() {
    let sem = ir(PROGRAM);
    let text = type_definitions_code(&sem);
    assert_eq!(
        text,
        "// Struct definitions for nodes\n\
         typedef struct _A { \n\tint32_t x;\n\tint16_t v[8];\n} A;\n\n\
         typedef struct _B { \n\tchar y;\n} B;\n\n\
         // Struct definitions for edges\n\
         typedef struct _R {\n\tint32_t w;\n\tA from;\n\tB to;\n} R;\n\n\
         // Struct definitions for walkers\n\
         using W = A;\n"
    );
    assert_eq!(text.matches("typedef struct _A ").count(), 1);
}

#[test]
fn host_program_stages_each_array_field() {
    let sem = ir(PROGRAM);
    let text = host_code(&sem);
    assert!(text.starts_with(&includes_host()));
    assert!(text.contains("static int16_t* a1_v;\n"));
    assert!(text.contains("static int16_t* a2_v;\n"));
    assert!(text.contains("\ta1_v = malloc(8 * nr_of_dpus * sizeof(int16_t));\n"));
    assert!(text.contains("\tread_input(a2_v, 8);\n"));
    assert!(text.contains("\tunsigned int dpu_input_size_bytes = 16/nr_of_dpus;\n"));
    assert!(text.contains("DPU_ASSERT(dpu_alloc(NR_DPUS, NULL, &dpu_set));"));
    assert!(text.contains("DPU_ASSERT(dpu_launch(dpu_set, DPU_SYNCHRONOUS));"));
    assert!(text.contains("for(int rep = 0; rep < p.n_warmup + p.n_reps; rep++)"));
    assert!(text.contains("dpu_prepare_xfer(dpu, a2_v_val + input_size_dpu_8bytes * i)"));
    assert!(!text.contains("b1_"));
    assert!(text.contains("input_arguments[i].kernel=kernel_dpu;"));
    assert!(text.contains("#if PRINT\n"));
    assert!(text.contains("\t\tif(a2_v[i] != buffer_a2_v[i])  {status = false;}\n"));
    assert!(text.ends_with("\treturn status ? 0 : -1;\n}\n"));
}

#[test]
fn device_program_walks_blocks() {
    let sem = ir(PROGRAM);
    let text = device_code(&sem);
    assert!(text.starts_with(&includes_dpu()));
    assert!(text.contains("if (tasklet_id == 0){mem_reset();}"));
    assert!(text.contains("barrier_wait(&my_barrier);"));
    assert!(text.contains("\tuint32_t mram_base_addr_a1_v = "));
    assert!(text.contains("\tint16_t *cache_a2_v = (int16_t *) mem_alloc(BLOCK_SIZE);\n"));
    assert!(text.contains("mram_read((__mram_ptr void const*)(mram_base_addr_a1_v + byte_index), cache_a1_v, l_size_bytes);"));
    assert!(text.contains("\t\tkernel_dpu(\n\t\t\tcache_a1_v,\n\t\t\tcache_a2_v,\n\t\t\tl_size_bytes >> DIV);\n"));
    assert!(text.contains("mram_write(cache_a2_v, (__mram_ptr void*)(mram_base_addr_a2_v + byte_index), l_size_bytes);"));
}

#[test]
fn programs_without_arrays_or_graphs() {
    let sem = ir("node A { x: int8; };");
    let host = host_code(&sem);
    assert!(host.contains("dpu_input_size_bytes = 0/nr_of_dpus;"));
    assert!(!host.contains("DPU_XFER_FROM_DPU"));
    assert!(!device_code(&sem).contains("mram_write"));
}

#[test]
fn headers() {
    assert!(includes_host().starts_with("// Generated C code\n#include <stdint.h>\n"));
    assert!(includes_host().contains("#define DPU_BINARY \"./dpu_binary.bin\"\n"));
    assert!(includes_dpu().ends_with("#include <barrier.h>\n"));
    assert_eq!(includes_support(), "#include <stdint.h>\n");
}

#[test]
fn shared_definitions_are_guarded() {
    let sem = ir(PROGRAM);
    let text = shared_definitions(&sem);
    assert!(text.starts_with("#ifndef SHARED_DEFINITIONS\n#define SHARED_DEFINITIONS\n"));
    assert!(text.ends_with("using W = A;\n#endif\n"));
}

#[test]
fn initializer_declarations() {
    let sem = ir(PROGRAM);
    assert_eq!(
        initialization_declaration(&sem.graphs[0]),
        "#include \"support.h\"\n\nA a1_init();\nA a2_init();\nB b1_init();\nR a1_b1_init();"
    );
}

#[test]
fn host_main_function() {
    let sem = ir(PROGRAM);
    let text = main_function(&sem, 4, &vec![]);
    assert_eq!(
        text,
        "int main(int argc, char **argv) {\n  // Instantiate all the nodes\n  \
         A a1_inst;\nA a2_inst;\nB b1_inst;\n  // Instantiate all the edges\n  R a1_b1_inst;\n  \
         // Initialize the DPU\n  struct dpu_set_t set, dpu;\nuint32_t checksum;\n\n\
         DPU_ASSERT(dpu_alloc(4, NULL, &set));\n\n  // Initialize the nodes\n  \
         a1 = a1_init();\na2 = a2_init();\nb1 = b1_init();\n  // Initialize the edges\n  \
         a1 = b1_R_init();\n  // Start the DPU\n  // Load the DPU binary\n\
         DPU_ASSERT(dpu_load(set, DPU_BINARY));\n// Launch\n\
         DPU_ASSERT(dpu_launch(set, DPU_SYNCHRONOUS));\n\n}\n"
    );
}
