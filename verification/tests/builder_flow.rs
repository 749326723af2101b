use forge::builder::{
    descriptor, BuildError, BuildState, ImageBuilder, InstrAction,
};
use forge::forgefile::Instruction;
use forge::hashing::{compute_cache_key, layer_digest};
use forge::store::ImageStore;

const K1: &str = "cache:e52e772bed6bd657b0c0939e228164f089bc55ac88fcdb2e2480457972e8bef5";
const K2: &str = "cache:c36964dabe7057ee81043f1eebe36a0347b349bea26938a30257680fc3add11a";

#[test]
fn initial_state_matches_the_defaults() {
    let st = BuildState::new();
    assert_eq!(st.layers.len(), 0);
    assert_eq!(st.prev_cache_key, "base");
    assert!(st.cache_valid);
    assert_eq!(st.config.entrypoint.len(), 0);
    assert_eq!(st.config.env, vec![String::from("PATH=/usr/local/bin:/usr/bin:/bin")]);
    assert_eq!(st.config.working_dir, "/");
}

#[test]
fn descriptors_have_their_stable_text() {
    let from = Instruction::From { image: String::from("alpine") };
    assert_eq!(descriptor(&from, ""), "FROM:alpine");
    let copy = Instruction::Copy { src: String::from("a.txt"), dest: String::from("/a") };
    assert_eq!(descriptor(&copy, "deadbeef"), "COPY:a.txt:/a:deadbeef");
    let run = Instruction::Run { command: String::from("echo hi") };
    assert_eq!(descriptor(&run, ""), "RUN:echo hi");
    let wd = Instruction::Workdir { path: String::from("/app") };
    assert_eq!(descriptor(&wd, ""), "WORKDIR:/app");
    let env = Instruction::Env { key: String::from("K"), value: String::from("v=w") };
    assert_eq!(descriptor(&env, ""), "ENV:K=v=w");
    let ep = Instruction::Entrypoint {
        args: vec![String::from("/bin/cat"), String::from("/greeting")],
    };
    assert_eq!(descriptor(&ep, ""), "ENTRYPOINT:[\"/bin/cat\", \"/greeting\"]");
    let ep_empty = Instruction::Entrypoint { args: vec![] };
    assert_eq!(descriptor(&ep_empty, ""), "ENTRYPOINT:[]");
}

#[test]
fn cache_keys_chain_from_base() {
    let k1 = compute_cache_key("base", "FROM:alpine");
    assert_eq!(k1, K1);
    let k2 = compute_cache_key(&k1, "RUN:echo hello > /greeting");
    assert_eq!(k2, K2);
}

#[test]
fn layer_digest_is_the_hash_of_the_bytes() {
    assert_eq!(
        layer_digest(b""),
        "sha256:e3b0c44298fc1c149afbf4c8996fb92427ae41e4649b934ca495991b7852b855"
    );
    assert_eq!(
        layer_digest(b"hello"),
        "sha256:2cf24dba5fb0a30e26e83b2ac5b9e29e1b161e5c1fa7425e73043362938b9824"
    );
}

#[test]
fn a_changed_instruction_changes_the_key() {
    let k_hello = compute_cache_key(K1, "RUN:echo hello > /greeting");
    let k_world = compute_cache_key(K1, "RUN:echo world > /greeting");
    assert_ne!(k_hello, k_world);
}

#[test]
fn first_build_misses_then_second_build_hits() {
    let mut builder = ImageBuilder::new(ImageStore::new(String::from("/tmp/imgs")));
    let from = Instruction::From { image: String::from("alpine") };
    let run = Instruction::Run { command: String::from("echo hello > /greeting") };

    // First build: both instructions miss and execute.
    let mut st = BuildState::new();
    let (k1, action) = builder.plan_instruction(&st, &from, "");
    assert_eq!(k1, K1);
    assert!(matches!(action, InstrAction::Execute));
    let d1 = builder.record_executed(&mut st, &k1, b"base layer bytes");
    let (k2, action) = builder.plan_instruction(&st, &run, "");
    assert_eq!(k2, K2);
    assert!(matches!(action, InstrAction::Execute));
    let d2 = builder.record_executed(&mut st, &k2, b"second layer bytes");
    assert_eq!(st.layers, vec![d1.clone(), d2.clone()]);
    assert!(!st.cache_valid);
    let (mjson, _cjson) = builder.finish_build(&st, "s1", "v1").expect("layers all present");
    assert!(mjson.contains(&d1));

    // Second build over the same store: every step hits the cache and
    // yields the same digests.
    let mut st2 = BuildState::new();
    let (k1b, action) = builder.plan_instruction(&st2, &from, "");
    assert_eq!(k1b, K1);
    match action {
        InstrAction::Cached(d) => assert_eq!(d, d1),
        other => panic!("expected a cache hit, got {:?}", other),
    }
    ImageBuilder::apply_cached(&mut st2, k1b, d1.clone());
    let (k2b, action) = builder.plan_instruction(&st2, &run, "");
    assert_eq!(k2b, K2);
    match action {
        InstrAction::Cached(d) => assert_eq!(d, d2),
        other => panic!("expected a cache hit, got {:?}", other),
    }
    ImageBuilder::apply_cached(&mut st2, k2b, d2.clone());
    assert_eq!(st2.layers, st.layers);
    assert!(st2.cache_valid);
}

#[test]
fn a_dangling_cache_entry_is_a_miss() {
    let mut builder = ImageBuilder::new(ImageStore::new(String::from("/tmp/imgs")));
    // The index knows the key, but no layer with that digest is present.
    builder.store.cache_layer(K1, "sha256:gone");
    let st = BuildState::new();
    let from = Instruction::From { image: String::from("alpine") };
    let (_k, action) = builder.plan_instruction(&st, &from, "");
    assert!(matches!(action, InstrAction::Execute));
}

#[test]
fn once_invalid_the_chain_stays_invalid() {
    let mut builder = ImageBuilder::new(ImageStore::new(String::from("/tmp/imgs")));
    let from = Instruction::From { image: String::from("alpine") };
    let run = Instruction::Run { command: String::from("echo hello > /greeting") };

    // Prime the cache for both keys.
    let mut st = BuildState::new();
    let (k1, _) = builder.plan_instruction(&st, &from, "");
    builder.record_executed(&mut st, &k1, b"layer one");
    let (k2, _) = builder.plan_instruction(&st, &run, "");
    builder.record_executed(&mut st, &k2, b"layer two");

    // A build whose chain is already invalid executes even cached keys.
    let mut st2 = BuildState::new();
    st2.cache_valid = false;
    let (_k, action) = builder.plan_instruction(&st2, &from, "");
    assert!(matches!(action, InstrAction::Execute));
}

#[test]
fn metadata_instructions_update_only_the_config() {
    let builder = ImageBuilder::new(ImageStore::new(String::from("/tmp/imgs")));
    let mut st = BuildState::new();
    let wd = Instruction::Workdir { path: String::from("/app") };
    let (k, action) = builder.plan_instruction(&st, &wd, "");
    assert!(matches!(action, InstrAction::Meta));
    ImageBuilder::apply_meta(&mut st, &wd, k);
    assert_eq!(st.config.working_dir, "/app");
    assert_eq!(st.layers.len(), 0);
    assert!(st.cache_valid);

    let env = Instruction::Env { key: String::from("FOO"), value: String::from("bar") };
    let (k, _) = builder.plan_instruction(&st, &env, "");
    ImageBuilder::apply_meta(&mut st, &env, k);
    assert_eq!(st.config.env.last().unwrap(), "FOO=bar");

    let ep = Instruction::Entrypoint { args: vec![String::from("/bin/sh")] };
    let (k, _) = builder.plan_instruction(&st, &ep, "");
    ImageBuilder::apply_meta(&mut st, &ep, k.clone());
    assert_eq!(st.config.entrypoint, vec![String::from("/bin/sh")]);
    assert_eq!(st.prev_cache_key, k);
    assert_eq!(st.layers.len(), 0);
}

#[test]
fn empty_build_saves_an_empty_manifest_and_default_config() {
    let mut builder = ImageBuilder::new(ImageStore::new(String::from("/tmp/imgs")));
    let st = BuildState::new();
    let (mjson, cjson) = builder.finish_build(&st, "empty", "latest").expect("no layers needed");
    assert_eq!(mjson, "{\"name\":\"empty\",\"tag\":\"latest\",\"layers\":[]}");
    assert_eq!(
        cjson,
        "{\"entrypoint\":[],\"env\":[\"PATH=/usr/local/bin:/usr/bin:/bin\"],\"working_dir\":\"/\"}"
    );
}

#[test]
fn metadata_only_build_has_zero_layers_and_reflects_the_config() {
    let mut builder = ImageBuilder::new(ImageStore::new(String::from("/tmp/imgs")));
    let mut st = BuildState::new();
    for instr in [
        Instruction::Workdir { path: String::from("/srv") },
        Instruction::Env { key: String::from("A"), value: String::from("1") },
        Instruction::Entrypoint { args: vec![String::from("/bin/true")] },
    ] {
        let (k, action) = builder.plan_instruction(&st, &instr, "");
        assert!(matches!(action, InstrAction::Meta));
        ImageBuilder::apply_meta(&mut st, &instr, k);
    }
    assert_eq!(st.layers.len(), 0);
    let (mjson, cjson) = builder.finish_build(&st, "meta", "v1").expect("zero layers");
    assert_eq!(mjson, "{\"name\":\"meta\",\"tag\":\"v1\",\"layers\":[]}");
    assert!(cjson.contains("\"working_dir\":\"/srv\""));
    assert!(cjson.contains("A=1"));
    assert!(cjson.contains("/bin/true"));
}

#[test]
fn pull_plan_downloads_only_when_the_tarball_is_absent() {
    let builder = ImageBuilder::new(ImageStore::new(String::from("/root/imgs")));
    let plan = builder.pull_base_plan("alpine", "x86_64", false).expect("supported");
    assert!(plan.download);
    assert_eq!(plan.cache_path, "/root/imgs/alpine-x86_64.tar.gz");
    assert_eq!(
        plan.url,
        "https://dl-cdn.alpinelinux.org/alpine/v3.19/releases/x86_64/alpine-minirootfs-3.19.1-x86_64.tar.gz"
    );
    let plan = builder.pull_base_plan("alpine:3.19", "aarch64", true).expect("supported");
    assert!(!plan.download);
    assert_eq!(plan.cache_path, "/root/imgs/alpine-aarch64.tar.gz");
}

#[test]
fn unsupported_base_image_and_architecture_are_errors() {
    let builder = ImageBuilder::new(ImageStore::new(String::from("/root/imgs")));
    assert!(matches!(
        builder.pull_base_plan("ubuntu", "x86_64", false),
        Err(BuildError::UnsupportedBaseImage)
    ));
    assert!(matches!(
        builder.pull_base_plan("alpine", "riscv64", false),
        Err(BuildError::UnsupportedArchitecture)
    ));
}

#[test]
fn command_argument_plans_are_exact() {
    assert_eq!(
        forge::builder::tar_extract_args("/imgs/layers/sha256:x", "/tmp/rootfs"),
        vec!["-xzf", "/imgs/layers/sha256:x", "-C", "/tmp/rootfs"]
    );
    assert_eq!(
        forge::builder::tar_create_args("/tmp/layer-1.tar.gz", "/tmp/rootfs"),
        vec!["-czf", "/tmp/layer-1.tar.gz", "-C", "/tmp/rootfs", "."]
    );
    assert_eq!(
        forge::builder::chroot_args("/tmp/rootfs", "apk add curl"),
        vec!["/tmp/rootfs", "/bin/sh", "-c", "apk add curl"]
    );
    assert_eq!(forge::builder::resolv_conf_dest("/tmp/rootfs"), "/tmp/rootfs/etc/resolv.conf");
    assert_eq!(forge::builder::build_scratch_dir(), "/tmp/container-build");
    assert_eq!(forge::builder::build_rootfs_dir(), "/tmp/container-build/rootfs");
    assert_eq!(forge::builder::layer_tarball_path("abc"), "/tmp/layer-abc.tar.gz");
}

#[test]
fn content_hash_is_plain_hex() {
    assert_eq!(
        forge::hashing::content_hash(b"hello"),
        "2cf24dba5fb0a30e26e83b2ac5b9e29e1b161e5c1fa7425e73043362938b9824"
    );
}

#[test]
fn copy_content_change_changes_the_key() {
    let copy = Instruction::Copy { src: String::from("app.txt"), dest: String::from("/app.txt") };
    let h1 = forge::hashing::content_hash(b"first contents");
    let h2 = forge::hashing::content_hash(b"second contents");
    let k1 = compute_cache_key("base", &descriptor(&copy, &h1));
    let k2 = compute_cache_key("base", &descriptor(&copy, &h2));
    assert_ne!(k1, k2);
}

#[test]
fn a_miss_forces_later_instructions_to_execute() {
    let mut builder = ImageBuilder::new(ImageStore::new(String::from("/tmp/imgs")));
    let from = Instruction::From { image: String::from("alpine:3.19") };
    let run = Instruction::Run { command: String::from("echo hello > /greeting") };

    // Prime the store so that the RUN step's key of this very chain is a
    // usable cache entry.
    let k1 = compute_cache_key("base", "FROM:alpine:3.19");
    let k2 = compute_cache_key(&k1, "RUN:echo hello > /greeting");
    let d2 = builder.store.save_layer(b"run layer bytes");
    builder.store.cache_layer(&k2, &d2);

    // The FROM step misses; from then on even the primed RUN key executes.
    let mut st = BuildState::new();
    let (key1, action) = builder.plan_instruction(&st, &from, "");
    assert_eq!(key1, k1);
    assert!(matches!(action, InstrAction::Execute));
    builder.record_executed(&mut st, &key1, b"fresh base layer");
    assert!(!st.cache_valid);
    let (key2, action) = builder.plan_instruction(&st, &run, "");
    assert_eq!(key2, k2);
    assert!(matches!(action, InstrAction::Execute));
}
