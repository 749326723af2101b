use forge::cgroups::{cleanup_plan, limit_writes, membership_writes, pids_to_kill, setup_cgroups,
    subtree_control_value};
use forge::cli::{dispatch_of, parse_build_args, parse_image_ref, CliError, Dispatch};
use forge::network::{
    configure_container_veth, configure_host_veth, create_veth_pair, get_default_interface_public,
    ip_forward_write, nat_rules, setup_veth_pair_with_iface,
};
use forge::runtime::{
    child_sequence, container_dirs, essential_mounts, host_sequence, ldd_lib_paths, run_plan,
    select_command, split_env, ChildStep, HostStep,
};
use forge::store::{ImageManifest, ImageStore};

#[test]
fn unified_limits_match_the_fixed_values() {
    let writes = limit_writes("t", true);
    assert_eq!(writes.len(), 3);
    assert_eq!(writes[0].path, "/sys/fs/cgroup/t/cpu.max");
    assert_eq!(writes[0].content, "50000 100000");
    assert_eq!(writes[1].path, "/sys/fs/cgroup/t/memory.max");
    assert_eq!(writes[1].content, "536870912");
    assert_eq!(writes[2].path, "/sys/fs/cgroup/t/pids.max");
    assert_eq!(writes[2].content, "100");
}

#[test]
fn split_hierarchy_limits_match_the_fixed_values() {
    let writes = limit_writes("t", false);
    assert_eq!(writes.len(), 4);
    assert_eq!(writes[0].path, "/sys/fs/cgroup/cpu/t/cpu.cfs_quota_us");
    assert_eq!(writes[0].content, "50000");
    assert_eq!(writes[1].path, "/sys/fs/cgroup/cpu/t/cpu.cfs_period_us");
    assert_eq!(writes[1].content, "100000");
    assert_eq!(writes[2].path, "/sys/fs/cgroup/memory/t/memory.limit_in_bytes");
    assert_eq!(writes[2].content, "536870912");
    assert_eq!(writes[3].path, "/sys/fs/cgroup/pids/t/pids.max");
    assert_eq!(writes[3].content, "100");
}

#[test]
fn membership_writes_name_the_pid() {
    let writes = membership_writes("t", true, 4242);
    assert_eq!(writes.len(), 1);
    assert_eq!(writes[0].path, "/sys/fs/cgroup/t/cgroup.procs");
    assert_eq!(writes[0].content, "4242");
    let writes = membership_writes("t", false, 7);
    assert_eq!(writes.len(), 3);
    for w in &writes {
        assert_eq!(w.content, "7");
        assert!(w.path.ends_with("/t/cgroup.procs"));
    }
}

#[test]
fn subtree_control_enables_only_available_controllers() {
    assert_eq!(subtree_control_value("cpuset cpu io memory hugetlb pids rdma"), "+cpu +memory +pids");
    assert_eq!(subtree_control_value("cpu"), "+cpu");
    assert_eq!(subtree_control_value("memory pids"), "+memory +pids");
    assert_eq!(subtree_control_value("io"), "");
    assert_eq!(subtree_control_value(""), "");
}

#[test]
fn setup_plan_covers_dirs_limits_and_membership() {
    let plan = setup_cgroups("c1", true, "cpu memory pids", 99);
    assert_eq!(plan.dirs, vec![String::from("/sys/fs/cgroup/c1")]);
    let subtree = plan.subtree.expect("unified layout writes subtree control");
    assert_eq!(subtree.path, "/sys/fs/cgroup/cgroup.subtree_control");
    assert_eq!(subtree.content, "+cpu +memory +pids");
    assert_eq!(plan.limits.len(), 3);
    assert_eq!(plan.membership.len(), 1);

    let plan = setup_cgroups("c1", false, "", 99);
    assert!(plan.subtree.is_none());
    assert_eq!(plan.dirs.len(), 3);
    assert_eq!(plan.limits.len(), 4);
    assert_eq!(plan.membership.len(), 3);
}

#[test]
fn cleanup_plan_pairs_procs_files_with_dirs() {
    let plan = cleanup_plan("c1", true);
    assert_eq!(plan.dirs, vec![String::from("/sys/fs/cgroup/c1")]);
    assert_eq!(plan.procs_files, vec![String::from("/sys/fs/cgroup/c1/cgroup.procs")]);
    let plan = cleanup_plan("c1", false);
    assert_eq!(plan.dirs.len(), 3);
    assert_eq!(plan.procs_files[0], format!("{}/cgroup.procs", plan.dirs[0]));
}

#[test]
fn pids_to_kill_keeps_only_positive_decimals() {
    let pids = pids_to_kill("123\n456\n");
    assert_eq!(pids, vec![123, 456]);
    let pids = pids_to_kill(" 7 \nnot-a-pid\n0\n-5\n\n2147483647\n99999999999\n");
    assert_eq!(pids, vec![7, 2147483647]);
    assert_eq!(pids_to_kill(""), Vec::<i32>::new());
}

#[test]
fn veth_commands_are_exact() {
    assert_eq!(
        create_veth_pair("veth-12", "veth-c-12"),
        vec!["link", "add", "veth-12", "type", "veth", "peer", "name", "veth-c-12"]
    );
    let host = configure_host_veth("veth-12");
    assert_eq!(host[0], vec!["addr", "add", "10.0.0.1/24", "dev", "veth-12"]);
    assert_eq!(host[1], vec!["link", "set", "veth-12", "up"]);
    let cont = configure_container_veth("veth-c-12", "cnt-12");
    assert_eq!(
        cont[0],
        vec!["netns", "exec", "cnt-12", "ip", "addr", "add", "10.0.0.2/24", "dev", "veth-c-12"]
    );
    assert_eq!(cont[3][4..], [String::from("route"), String::from("add"),
        String::from("default"), String::from("via"), String::from("10.0.0.1")]);
}

#[test]
fn nat_rules_are_exact() {
    let rules = nat_rules("veth-12", "eth0");
    assert_eq!(
        rules[0],
        vec!["-t", "nat", "-A", "POSTROUTING", "-s", "10.0.0.0/24", "-o", "eth0", "-j",
            "MASQUERADE"]
    );
    assert_eq!(rules[1], vec!["-A", "FORWARD", "-i", "veth-12", "-o", "eth0", "-j", "ACCEPT"]);
    assert_eq!(rules[2], vec!["-A", "FORWARD", "-i", "eth0", "-o", "veth-12", "-j", "ACCEPT"]);
    let (path, value) = ip_forward_write();
    assert_eq!(path, "/proc/sys/net/ipv4/ip_forward");
    assert_eq!(value, "1");
}

#[test]
fn veth_plan_derives_names_from_the_pid() {
    let plan = setup_veth_pair_with_iface(321, "eth0");
    assert_eq!(plan.veth_host, "veth-321");
    assert_eq!(plan.veth_container, "veth-c-321");
    assert_eq!(plan.netns_name, "cnt-321");
    assert_eq!(plan.netns_path, "/proc/321/ns/net");
    assert_eq!(plan.netns_link, "/var/run/netns/cnt-321");
    assert_eq!(plan.move_cmd, vec!["link", "set", "veth-c-321", "netns", "cnt-321"]);
    assert_eq!(plan.nat_cmds.len(), 3);
}

#[test]
fn default_interface_is_the_word_after_dev() {
    let out = "default via 10.0.2.2 dev enp0s1 proto dhcp src 10.0.2.15 metric 100\n";
    assert_eq!(get_default_interface_public(out), "enp0s1");
    assert_eq!(get_default_interface_public(""), "enp0s1");
    assert_eq!(get_default_interface_public("no route here"), "enp0s1");
    assert_eq!(get_default_interface_public("default via 1.2.3.4 dev"), "enp0s1");
    assert_eq!(get_default_interface_public("default via 1.2.3.4 dev wlan0"), "wlan0");
}

#[test]
fn container_dirs_cover_the_skeleton() {
    let dirs = container_dirs("/tmp/root");
    assert_eq!(dirs.len(), 17);
    assert_eq!(dirs[0], "/tmp/root/bin");
    assert_eq!(dirs[4], "/tmp/root/usr/bin");
    assert_eq!(dirs[16], "/tmp/root/old_root");
}

#[test]
fn essential_mounts_have_the_documented_order_and_fallback() {
    let plan = essential_mounts();
    assert_eq!(plan.proc_mount.target, "/proc");
    assert_eq!(plan.sys_mount.fstype, "sysfs");
    assert_eq!(plan.dev_mount.fstype, "devtmpfs");
    assert_eq!(plan.dev_mount.flags, vec!["MS_NOSUID", "MS_STRICTATIME"]);
    assert_eq!(plan.dev_fallback.fstype, "tmpfs");
    assert_eq!(plan.dev_fallback.data.as_deref(), Some("mode=755"));
    assert_eq!(plan.tmp_mount.target, "/tmp");
}

#[test]
fn lifecycle_sequences_have_the_documented_order() {
    let host = host_sequence();
    assert_eq!(host.len(), 9);
    assert!(matches!(host[0], HostStep::SetupCgroups));
    assert!(matches!(host[3], HostStep::UnsharePidMountUts));
    assert!(matches!(host[4], HostStep::ForkChild));
    assert!(matches!(host[5], HostStep::SetupVeth));
    let child = child_sequence();
    assert_eq!(child.len(), 6);
    assert!(matches!(child[0], ChildStep::UnshareNet));
    assert!(matches!(child[5], ChildStep::ExecCommand));
}

#[test]
fn command_selection_prefers_the_entrypoint() {
    let ep = vec![String::from("/bin/cat"), String::from("/greeting")];
    assert_eq!(select_command(&ep, false), ep);
    assert_eq!(select_command(&Vec::new(), true), vec!["/bin/bash"]);
    assert_eq!(select_command(&Vec::new(), false), vec!["/bin/sh"]);
}

#[test]
fn env_entries_split_at_the_first_equals() {
    assert_eq!(split_env("PATH=/bin:/usr/bin"),
        Some((String::from("PATH"), String::from("/bin:/usr/bin"))));
    assert_eq!(split_env("A=b=c"), Some((String::from("A"), String::from("b=c"))));
    assert_eq!(split_env("NOEQ"), None);
}

#[test]
fn ldd_output_yields_the_library_paths() {
    let out = "\tlinux-vdso.so.1 (0x00007ffe1234)\n\
               \tlibc.so.6 => /lib/x86_64-linux-gnu/libc.so.6 (0x00007f001234)\n\
               \t/lib64/ld-linux-x86-64.so.2 (0x00007f005678)\n";
    let libs = ldd_lib_paths(out);
    assert_eq!(libs, vec!["/lib/x86_64-linux-gnu/libc.so.6", "/lib64/ld-linux-x86-64.so.2"]);
}

#[test]
fn run_plan_names_everything_after_one_identifier() {
    let store = ImageStore::new(String::from("/imgs"));
    let manifest = ImageManifest {
        name: String::from("app"),
        tag: String::from("latest"),
        layers: vec![String::from("sha256:aa"), String::from("sha256:bb")],
    };
    let plan = run_plan(&store, &manifest);
    assert_eq!(plan.container_id.len(), 36);
    assert_eq!(plan.rootfs, format!("/tmp/container-{}", plan.container_id));
    assert_eq!(plan.container_name, format!("img-{}", plan.container_id));
    assert_eq!(plan.extract_cmds.len(), 2);
    assert_eq!(
        plan.extract_cmds[0],
        vec![
            String::from("-xzf"),
            String::from("/imgs/layers/sha256:aa"),
            String::from("-C"),
            plan.rootfs.clone(),
        ]
    );
    let plan2 = run_plan(&store, &manifest);
    assert_ne!(plan.container_id, plan2.container_id);
    assert_ne!(plan.container_name, plan2.container_name);
}

#[test]
fn build_flags_parse_with_defaults() {
    let args: Vec<String> =
        ["prog", "build"].iter().map(|s| s.to_string()).collect();
    let b = parse_build_args(&args).unwrap();
    assert_eq!(b.file, "ForgeFile");
    assert_eq!(b.name, "app");
    assert_eq!(b.tag, "latest");

    let args: Vec<String> = ["prog", "build", "-f", "Other", "-t", "my:v2", "junk"]
        .iter().map(|s| s.to_string()).collect();
    let b = parse_build_args(&args).unwrap();
    assert_eq!(b.file, "Other");
    assert_eq!(b.name, "my");
    assert_eq!(b.tag, "v2");

    let args: Vec<String> =
        ["prog", "build", "--tag", "plain"].iter().map(|s| s.to_string()).collect();
    let b = parse_build_args(&args).unwrap();
    assert_eq!(b.name, "plain");
    assert_eq!(b.tag, "latest");

    let args: Vec<String> = ["prog", "build", "-t"].iter().map(|s| s.to_string()).collect();
    assert!(matches!(parse_build_args(&args), Err(CliError::MissingFlagValue)));
}

#[test]
fn image_refs_default_the_tag() {
    assert_eq!(parse_image_ref("myapp:v1.0"), (String::from("myapp"), String::from("v1.0")));
    assert_eq!(parse_image_ref("myapp"), (String::from("myapp"), String::from("latest")));
    assert_eq!(parse_image_ref("a:b:c"), (String::from("a"), String::from("b")));
}

#[test]
fn dispatch_requires_an_image_for_run() {
    let args: Vec<String> = ["prog", "run"].iter().map(|s| s.to_string()).collect();
    assert!(matches!(dispatch_of(&args), Dispatch::Usage));
    let args: Vec<String> = ["prog", "run", "app:v1"].iter().map(|s| s.to_string()).collect();
    match dispatch_of(&args) {
        Dispatch::RunImage(image) => assert_eq!(image, "app:v1"),
        other => panic!("unexpected dispatch: {:?}", other),
    }
    let args: Vec<String> = ["prog", "build"].iter().map(|s| s.to_string()).collect();
    assert!(matches!(dispatch_of(&args), Dispatch::Build));
    let args: Vec<String> = ["prog"].iter().map(|s| s.to_string()).collect();
    assert!(matches!(dispatch_of(&args), Dispatch::Interactive));
    let args: Vec<String> = ["prog", "frobnicate"].iter().map(|s| s.to_string()).collect();
    assert!(matches!(dispatch_of(&args), Dispatch::Interactive));
}

#[test]
fn decimal_rendering_covers_the_edges() {
    assert_eq!(forge::strutil::u64_to_string(0), "0");
    assert_eq!(forge::strutil::u64_to_string(10), "10");
    assert_eq!(forge::strutil::u64_to_string(u64::MAX), "18446744073709551615");
    let writes = membership_writes("t", true, 0);
    assert_eq!(writes[0].content, "0");
}
