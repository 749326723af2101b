//! The layered image builder.
//!
//! Instructions are processed in source order.  Each one advances a chained
//! cache key; `FROM`, `COPY` and `RUN` produce a layer, either reused from
//! the cache or freshly created, while `WORKDIR`, `ENV` and `ENTRYPOINT`
//! only update the runtime configuration.  Once one instruction misses the
//! cache, every later one executes fresh.
//!
//! The whole step is modelled by [`step_spec`] over an abstract view of the
//! store; the executable pieces (`plan_instruction`, `apply_meta`,
//! `apply_cached`, `record_executed`) each realise one part of it, and the
//! lemmas state the chain's laws: determinism, reproducibility through the
//! cache, and monotone invalidation.

use vstd::prelude::*;
use vstd::string::*;
use crate::forgefile::{Instruction, InstructionV};
use crate::hashing::{cache_key_of, compute_cache_key, layer_digest_of};
use crate::json::render_jstr;
use crate::store::{ConfigV, ImageConfig, ImageManifest, ImageStore, ManifestV, StoreError,
    render_config_doc, render_manifest_doc, manifest_views};
use crate::strutil::{clone_strings, push_char, string_views};

verus! {

/// The descriptor text of an `ENTRYPOINT` argument vector: the arguments
/// quoted and comma-separated inside brackets.
pub open spec fn dbg_list_of(args: Seq<Seq<char>>) -> Seq<char>
    decreases args.len(),
{
    if args.len() == 0 {
        seq!['[', ']']
    } else {
        seq!['['] + render_jstr(args.first()) + dbg_more_of(args.drop_first()) + seq![']']
    }
}

/// The arguments after the first, each preceded by a comma and a space.
pub open spec fn dbg_more_of(args: Seq<Seq<char>>) -> Seq<char>
    decreases args.len(),
{
    if args.len() == 0 {
        Seq::empty()
    } else {
        seq![',', ' '] + render_jstr(args.first()) + dbg_more_of(args.drop_first())
    }
}

pub proof fn lemma_dbg_more_push(args: Seq<Seq<char>>, x: Seq<char>)
    ensures
        dbg_more_of(args.push(x)) == dbg_more_of(args) + seq![',', ' '] + render_jstr(x),
    decreases args.len(),
{
    if args.len() == 0 {
        assert(args.push(x).first() == x);
        assert(args.push(x).drop_first() =~= Seq::<Seq<char>>::empty());
        assert(dbg_more_of(args.push(x)) == seq![',', ' '] + render_jstr(x) + dbg_more_of(
            Seq::<Seq<char>>::empty(),
        ));
        assert(dbg_more_of(Seq::<Seq<char>>::empty()) == Seq::<char>::empty());
        assert(seq![',', ' '] + render_jstr(x) + Seq::<char>::empty() =~= dbg_more_of(args)
            + seq![',', ' '] + render_jstr(x));
    } else {
        assert(args.push(x).first() == args.first());
        assert(args.push(x).drop_first() =~= args.drop_first().push(x));
        lemma_dbg_more_push(args.drop_first(), x);
        assert(dbg_more_of(args.push(x)) == seq![',', ' '] + render_jstr(args.first()) + (
        dbg_more_of(args.drop_first()) + seq![',', ' '] + render_jstr(x)));
        assert(seq![',', ' '] + render_jstr(args.first()) + (dbg_more_of(args.drop_first())
            + seq![',', ' '] + render_jstr(x)) =~= dbg_more_of(args) + seq![',', ' ']
            + render_jstr(x));
    }
}

/// The stable descriptor text of an instruction, the input of its cache
/// key.  `COPY` descriptors carry the content hash of the copied source.
pub open spec fn descriptor_of(i: InstructionV, copy_hash: Seq<char>) -> Seq<char> {
    match i {
        InstructionV::From { image } => seq!['F', 'R', 'O', 'M', ':'] + image,
        InstructionV::Copy { src, dest } => seq!['C', 'O', 'P', 'Y', ':'] + src + seq![':'] + dest
            + seq![':'] + copy_hash,
        InstructionV::Run { command } => seq!['R', 'U', 'N', ':'] + command,
        InstructionV::Workdir { path } => seq!['W', 'O', 'R', 'K', 'D', 'I', 'R', ':'] + path,
        InstructionV::Env { key, value } => seq!['E', 'N', 'V', ':'] + key + seq!['='] + value,
        InstructionV::Entrypoint { args } => seq![
            'E',
            'N',
            'T',
            'R',
            'Y',
            'P',
            'O',
            'I',
            'N',
            'T',
            ':',
        ] + dbg_list_of(args),
    }
}

/// Whether an instruction only updates the configuration, producing no
/// layer.
pub open spec fn is_meta(i: InstructionV) -> bool {
    match i {
        InstructionV::Workdir { .. } => true,
        InstructionV::Env { .. } => true,
        InstructionV::Entrypoint { .. } => true,
        _ => false,
    }
}

/// The configuration after one metadata instruction; any other instruction
/// leaves it unchanged.
pub open spec fn config_after(c: ConfigV, i: InstructionV) -> ConfigV {
    match i {
        InstructionV::Workdir { path } => ConfigV { working_dir: path, ..c },
        InstructionV::Env { key, value } => ConfigV {
            env: c.env.push(key + seq!['='] + value),
            ..c
        },
        InstructionV::Entrypoint { args } => ConfigV { entrypoint: args, ..c },
        _ => c,
    }
}

/// What the builder reads and writes of the store: the cache index as a
/// map, and the set of layer digests present.
pub struct BuildModel {
    pub index: Map<Seq<char>, Seq<char>>,
    pub present: Set<Seq<char>>,
}

/// The builder's running state.
pub struct BuildStateV {
    pub layers: Seq<Seq<char>>,
    pub prev_key: Seq<char>,
    pub cache_valid: bool,
    pub config: ConfigV,
}

/// The store as the build model sees it.
pub open spec fn model_of(s: ImageStore) -> BuildModel {
    BuildModel {
        index: Map::new(
            |k: Seq<char>| s.index.spec_get(k) is Some,
            |k: Seq<char>| s.index.spec_get(k)->Some_0,
        ),
        present: Set::new(|d: Seq<char>| s.spec_layer_exists(d)),
    }
}

/// Whether the builder would reuse a cached layer for key `k`: the chain is
/// still valid, the index knows the key, and the layer file is present.
pub open spec fn is_hit(m: BuildModel, st: BuildStateV, k: Seq<char>) -> bool {
    st.cache_valid && m.index.contains_key(k) && m.present.contains(m.index[k])
}

/// One instruction's effect on the store model and the build state.
/// `copy_hash` is the content hash of a `COPY` source; `fresh` is the
/// digest of the layer that executing the instruction would produce.
pub open spec fn step_spec(
    m: BuildModel,
    st: BuildStateV,
    i: InstructionV,
    copy_hash: Seq<char>,
    fresh: Seq<char>,
) -> (BuildModel, BuildStateV) {
    let k = cache_key_of(st.prev_key, descriptor_of(i, copy_hash));
    if is_meta(i) {
        (m, BuildStateV { prev_key: k, config: config_after(st.config, i), ..st })
    } else if is_hit(m, st, k) {
        (m, BuildStateV { layers: st.layers.push(m.index[k]), prev_key: k, ..st })
    } else {
        (
            BuildModel { index: m.index.insert(k, fresh), present: m.present.insert(fresh) },
            BuildStateV {
                layers: st.layers.push(fresh),
                prev_key: k,
                cache_valid: false,
                config: st.config,
            },
        )
    }
}

/// A whole build: the instructions in order, with their aligned content
/// hashes and fresh-layer digests.
pub open spec fn run_build(
    m: BuildModel,
    st: BuildStateV,
    instrs: Seq<InstructionV>,
    hashes: Seq<Seq<char>>,
    freshes: Seq<Seq<char>>,
) -> (BuildModel, BuildStateV)
    decreases instrs.len(),
{
    if instrs.len() == 0 {
        (m, st)
    } else {
        let (m1, s1) = step_spec(m, st, instrs.first(), hashes.first(), freshes.first());
        run_build(m1, s1, instrs.drop_first(), hashes.drop_first(), freshes.drop_first())
    }
}

/// The chained cache keys of an instruction sequence.
pub open spec fn chain_keys(
    prev: Seq<char>,
    instrs: Seq<InstructionV>,
    hashes: Seq<Seq<char>>,
) -> Seq<Seq<char>>
    decreases instrs.len(),
{
    if instrs.len() == 0 {
        Seq::empty()
    } else {
        let k = cache_key_of(prev, descriptor_of(instrs.first(), hashes.first()));
        seq![k] + chain_keys(k, instrs.drop_first(), hashes.drop_first())
    }
}

/// The initial cache key of every build.
pub open spec fn base_key() -> Seq<char> {
    seq!['b', 'a', 's', 'e']
}

/// The default `PATH` entry every configuration starts with.
pub open spec fn default_path_env() -> Seq<char> {
    seq![
        'P', 'A', 'T', 'H', '=', '/', 'u', 's', 'r', '/', 'l', 'o', 'c', 'a', 'l', '/', 'b',
        'i', 'n', ':', '/', 'u', 's', 'r', '/', 'b', 'i', 'n', ':', '/', 'b', 'i', 'n',
    ]
}

/// The configuration a build starts from: no entrypoint, the default
/// `PATH`, the root working directory.
pub open spec fn initial_config() -> ConfigV {
    ConfigV {
        entrypoint: Seq::empty(),
        env: seq![default_path_env()],
        working_dir: seq!['/'],
    }
}

/// The state a build starts from.
pub open spec fn initial_state() -> BuildStateV {
    BuildStateV {
        layers: Seq::empty(),
        prev_key: base_key(),
        cache_valid: true,
        config: initial_config(),
    }
}

/// The builder's running state: the layers appended so far, the current
/// cache key, whether the chain may still hit the cache, and the
/// configuration assembled from metadata instructions.
#[derive(Debug)]
pub struct BuildState {
    pub layers: Vec<String>,
    pub prev_cache_key: String,
    pub cache_valid: bool,
    pub config: ImageConfig,
}

impl View for BuildState {
    type V = BuildStateV;

    open spec fn view(&self) -> BuildStateV {
        BuildStateV {
            layers: string_views(self.layers@),
            prev_key: self.prev_cache_key@,
            cache_valid: self.cache_valid,
            config: self.config@,
        }
    }
}

impl BuildState {
    /// The state a build starts from.
    pub fn new() -> (r: BuildState)
        ensures
            r@ == initial_state(),
    {
        let mut env: Vec<String> = Vec::new();
        env.push(String::from_str("PATH=/usr/local/bin:/usr/bin:/bin"));
        let r = BuildState {
            layers: Vec::new(),
            prev_cache_key: String::from_str("base"),
            cache_valid: true,
            config: ImageConfig {
                entrypoint: Vec::new(),
                env,
                working_dir: String::from_str("/"),
            },
        };
        proof {
            reveal_strlit("PATH=/usr/local/bin:/usr/bin:/bin");
            reveal_strlit("base");
            reveal_strlit("/");
            assert("PATH=/usr/local/bin:/usr/bin:/bin"@ =~= default_path_env());
            assert("base"@ =~= base_key());
            assert("/"@ =~= seq!['/']);
            assert(string_views(r.layers@) =~= Seq::<Seq<char>>::empty());
            assert(string_views(r.config.entrypoint@) =~= Seq::<Seq<char>>::empty());
            assert(string_views(r.config.env@) =~= seq![default_path_env()]);
            assert(r@ == initial_state());
        }
        r
    }
}

/// The descriptor text of an instruction.
pub fn descriptor(instr: &Instruction, copy_hash: &str) -> (r: String)
    ensures
        r@ == descriptor_of(instr@, copy_hash@),
{
    let mut out = String::new();
    match instr {
        Instruction::From { image } => {
            out.append("FROM:");
            out.append(image.as_str());
            proof {
                reveal_strlit("FROM:");
                assert("FROM:"@ =~= seq!['F', 'R', 'O', 'M', ':']);
                assert(out@ =~= descriptor_of(instr@, copy_hash@));
            }
        },
        Instruction::Copy { src, dest } => {
            out.append("COPY:");
            out.append(src.as_str());
            out.append(":");
            out.append(dest.as_str());
            out.append(":");
            out.append(copy_hash);
            proof {
                reveal_strlit("COPY:");
                reveal_strlit(":");
                assert("COPY:"@ =~= seq!['C', 'O', 'P', 'Y', ':']);
                assert(":"@ =~= seq![':']);
                assert(out@ =~= descriptor_of(instr@, copy_hash@));
            }
        },
        Instruction::Run { command } => {
            out.append("RUN:");
            out.append(command.as_str());
            proof {
                reveal_strlit("RUN:");
                assert("RUN:"@ =~= seq!['R', 'U', 'N', ':']);
                assert(out@ =~= descriptor_of(instr@, copy_hash@));
            }
        },
        Instruction::Workdir { path } => {
            out.append("WORKDIR:");
            out.append(path.as_str());
            proof {
                reveal_strlit("WORKDIR:");
                assert("WORKDIR:"@ =~= seq!['W', 'O', 'R', 'K', 'D', 'I', 'R', ':']);
                assert(out@ =~= descriptor_of(instr@, copy_hash@));
            }
        },
        Instruction::Env { key, value } => {
            out.append("ENV:");
            out.append(key.as_str());
            out.append("=");
            out.append(value.as_str());
            proof {
                reveal_strlit("ENV:");
                reveal_strlit("=");
                assert("ENV:"@ =~= seq!['E', 'N', 'V', ':']);
                assert("="@ =~= seq!['=']);
                assert(out@ =~= descriptor_of(instr@, copy_hash@));
            }
        },
        Instruction::Entrypoint { args } => {
            out.append("ENTRYPOINT:");
            push_char(&mut out, '[');
            let ghost pre = out@;
            if args.len() > 0 {
                crate::json::render_string_into(&mut out, args[0].as_str());
                let mut k: usize = 1;
                while k < args.len()
                    invariant
                        1 <= k <= args@.len(),
                        out@ == pre + render_jstr(args@[0]@) + dbg_more_of(
                            string_views(args@).subrange(1, k as int),
                        ),
                    decreases args@.len() - k,
                {
                    let ghost done = string_views(args@).subrange(1, k as int);
                    push_char(&mut out, ',');
                    push_char(&mut out, ' ');
                    crate::json::render_string_into(&mut out, args[k].as_str());
                    proof {
                        lemma_dbg_more_push(done, args@[k as int]@);
                        assert(done.push(args@[k as int]@) =~= string_views(args@).subrange(
                            1,
                            k + 1 as int,
                        ));
                        assert(out@ =~= pre + render_jstr(args@[0]@) + dbg_more_of(
                            string_views(args@).subrange(1, k + 1 as int),
                        ));
                    }
                    k += 1;
                }
                proof {
                    assert(string_views(args@).subrange(1, args@.len() as int) =~= string_views(
                        args@,
                    ).drop_first());
                }
            }
            push_char(&mut out, ']');
            proof {
                reveal_strlit("ENTRYPOINT:");
                assert("ENTRYPOINT:"@ =~= seq![
                    'E', 'N', 'T', 'R', 'Y', 'P', 'O', 'I', 'N', 'T', ':',
                ]);
                if args@.len() == 0 {
                    assert(string_views(args@).len() == 0);
                    assert(out@ =~= descriptor_of(instr@, copy_hash@));
                } else {
                    assert(string_views(args@).first() == args@[0]@);
                    assert(out@ =~= descriptor_of(instr@, copy_hash@));
                }
            }
        },
    }
    out
}

/// What the builder decides to do for one instruction.
#[derive(Debug)]
pub enum InstrAction {
    /// Only the configuration changes; no layer is produced.
    Meta,
    /// Reuse this cached layer: extract it into the rootfs.
    Cached(String),
    /// Execute the instruction's effect and create a fresh layer.
    Execute,
}

/// The image builder: the store it reads layers from and records them in.
#[derive(Debug)]
pub struct ImageBuilder {
    pub store: ImageStore,
}

impl ImageBuilder {
    /// A builder over a store.
    pub fn new(store: ImageStore) -> (b: ImageBuilder)
        ensures
            b.store == store,
    {
        ImageBuilder { store }
    }

    /// Compute an instruction's cache key and decide whether its layer is
    /// reused from the cache, freshly executed, or not produced at all.
    pub fn plan_instruction(
        &self,
        st: &BuildState,
        instr: &Instruction,
        copy_hash: &str,
    ) -> (r: (String, InstrAction))
        ensures
            ({
                let k = cache_key_of(st@.prev_key, descriptor_of(instr@, copy_hash@));
                let m = model_of(self.store);
                &&& r.0@ == k
                &&& match r.1 {
                    InstrAction::Meta => is_meta(instr@),
                    InstrAction::Cached(d) => {
                        &&& !is_meta(instr@)
                        &&& is_hit(m, st@, k)
                        &&& m.index[k] == d@
                    },
                    InstrAction::Execute => !is_meta(instr@) && !is_hit(m, st@, k),
                }
            }),
    {
        let d = descriptor(instr, copy_hash);
        let k = compute_cache_key(self.prev_key_str(st), d.as_str());
        let meta = match instr {
            Instruction::Workdir { .. } => true,
            Instruction::Env { .. } => true,
            Instruction::Entrypoint { .. } => true,
            _ => false,
        };
        if meta {
            return (k, InstrAction::Meta);
        }
        if st.cache_valid {
            match self.store.get_cached_layer(k.as_str()) {
                Some(dg) => {
                    if self.store.layer_exists(dg.as_str()) {
                        return (k, InstrAction::Cached(dg));
                    }
                },
                None => {},
            }
        }
        (k, InstrAction::Execute)
    }

    /// The current cache key of a state.
    fn prev_key_str<'a>(&self, st: &'a BuildState) -> (r: &'a str)
        ensures
            r@ == st@.prev_key,
    {
        st.prev_cache_key.as_str()
    }

    /// Apply a metadata instruction: the configuration changes and the
    /// chain advances; no layer is produced and the cache stays as it was.
    pub fn apply_meta(st: &mut BuildState, instr: &Instruction, key: String)
        requires
            is_meta(instr@),
        ensures
            final(st).layers == old(st).layers,
            final(st).cache_valid == old(st).cache_valid,
            final(st).prev_cache_key == key,
            final(st)@.config == config_after(old(st)@.config, instr@),
    {
        match instr {
            Instruction::Workdir { path } => {
                st.config.working_dir = path.clone();
            },
            Instruction::Env { key: k, value: v } => {
                let mut e = k.clone();
                e.append("=");
                e.append(v.as_str());
                let ghost env0 = string_views(st.config.env@);
                st.config.env.push(e);
                proof {
                    reveal_strlit("=");
                    assert("="@ =~= seq!['=']);
                    assert(string_views(st.config.env@) =~= env0.push(k@ + seq!['='] + v@));
                }
            },
            Instruction::Entrypoint { args } => {
                st.config.entrypoint = clone_strings(args);
            },
            _ => {
                proof {
                    assert(false);
                }
            },
        }
        st.prev_cache_key = key;
    }

    /// Reuse a cached layer: append its digest and advance the chain.  The
    /// caller extracts the layer into the rootfs.
    pub fn apply_cached(st: &mut BuildState, key: String, digest: String)
        ensures
            final(st)@.layers == old(st)@.layers.push(digest@),
            final(st).cache_valid == old(st).cache_valid,
            final(st).prev_cache_key == key,
            final(st).config == old(st).config,
    {
        let ghost ls0 = string_views(st.layers@);
        let ghost dv = digest@;
        st.layers.push(digest);
        st.prev_cache_key = key;
        proof {
            assert(string_views(st.layers@) =~= ls0.push(dv));
        }
    }

    /// Record a freshly executed instruction: the chain is no longer
    /// valid, the new layer's bytes are saved under their digest, the
    /// cache learns the key, and the state appends the digest.
    pub fn record_executed(&mut self, st: &mut BuildState, key: &str, data: &[u8]) -> (digest:
        String)
        ensures
            digest@ == layer_digest_of(data@),
            final(st)@.layers == old(st)@.layers.push(digest@),
            final(st).cache_valid == false,
            final(st).prev_cache_key@ == key@,
            final(st).config == old(st).config,
            final(self).store.spec_layer_exists(digest@),
            string_views(final(self).store.layers@) == string_views(
                old(self).store.layers@,
            ).push(digest@),
            forall|d: Seq<char>|
                old(self).store.spec_layer_exists(d) ==> final(self).store.spec_layer_exists(d),
            final(self).store.index.spec_get(key@) == Some(digest@),
            forall|k2: Seq<char>|
                k2 != key@ ==> final(self).store.index.spec_get(k2) == old(
                    self,
                ).store.index.spec_get(k2),
            final(self).store.root == old(self).store.root,
            final(self).store.manifests == old(self).store.manifests,
            old(self).store.wf() ==> final(self).store.wf(),
    {
        st.cache_valid = false;
        let digest = self.store.save_layer(data);
        self.store.cache_layer(key, digest.as_str());
        let ghost ls0 = string_views(st.layers@);
        let ghost dv = digest@;
        st.layers.push(digest.clone());
        st.prev_cache_key = String::from_str(key);
        proof {
            assert(string_views(st.layers@) =~= ls0.push(dv));
        }
        digest
    }

    /// Finish a build: save the manifest (refused while any layer is
    /// missing) and render the configuration.  The documents are returned
    /// for the caller to persist, together with the cache index.
    pub fn finish_build(&mut self, st: &BuildState, name: &str, tag: &str) -> (r: Result<
        (String, String),
        StoreError,
    >)
        requires
            old(self).store.wf(),
        ensures
            match r {
                Ok(docs) => {
                    &&& docs.0@ == render_manifest_doc(
                        ManifestV { name: name@, tag: tag@, layers: st@.layers },
                    )
                    &&& docs.1@ == render_config_doc(st@.config)
                    &&& manifest_views(final(self).store.manifests@) == manifest_views(
                        old(self).store.manifests@,
                    ).push(ManifestV { name: name@, tag: tag@, layers: st@.layers })
                    &&& final(self).store.wf()
                    &&& final(self).store.layers == old(self).store.layers
                    &&& final(self).store.index == old(self).store.index
                    &&& final(self).store.root == old(self).store.root
                },
                Err(e) => {
                    &&& e == StoreError::MissingLayer
                    &&& *final(self) == *old(self)
                    &&& exists|j: int|
                        0 <= j < st@.layers.len() && !old(self).store.spec_layer_exists(
                            st@.layers[j],
                        )
                },
            },
    {
        let manifest = ImageManifest {
            name: String::from_str(name),
            tag: String::from_str(tag),
            layers: clone_strings(&st.layers),
        };
        proof {
            assert(manifest@ == ManifestV { name: name@, tag: tag@, layers: st@.layers });
        }
        match self.store.save_manifest(&manifest) {
            Ok(json) => {
                let config_json = st.config.to_json();
                Ok((json, config_json))
            },
            Err(e) => Err(e),
        }
    }
}

/// Why preparing a base image failed.
#[derive(Debug, Clone, Copy, PartialEq, Eq, Structural)]
pub enum BuildError {
    /// Only `alpine*` base images are supported.
    UnsupportedBaseImage,
    /// Only the x86_64 and aarch64 architectures are supported.
    UnsupportedArchitecture,
}

/// How to obtain a base image: where its tarball is cached, where to
/// download it from, and whether the download is needed.
#[derive(Debug)]
pub struct PullPlan {
    pub cache_path: String,
    pub url: String,
    pub download: bool,
}

impl ImageBuilder {
    /// Plan obtaining a base image.  Only `alpine*` images on x86_64 or
    /// aarch64 are supported; the download happens exactly when the cached
    /// tarball is absent.
    pub fn pull_base_plan(&self, image: &str, arch: &str, cached_present: bool) -> (r: Result<
        PullPlan,
        BuildError,
    >)
        ensures
            match r {
                Ok(p) => {
                    &&& crate::strutil::begins_with(image@, "alpine"@)
                    &&& (arch@ == "x86_64"@ || arch@ == "aarch64"@)
                    &&& p.cache_path@ == self.store.root@ + "/alpine-"@ + arch@ + ".tar.gz"@
                    &&& p.url@ == "https://dl-cdn.alpinelinux.org/alpine/v3.19/releases/"@
                        + arch@ + "/alpine-minirootfs-3.19.1-"@ + arch@ + ".tar.gz"@
                    &&& p.download == !cached_present
                },
                Err(e) => match e {
                    BuildError::UnsupportedBaseImage => !crate::strutil::begins_with(
                        image@,
                        "alpine"@,
                    ),
                    BuildError::UnsupportedArchitecture => {
                        &&& crate::strutil::begins_with(image@, "alpine"@)
                        &&& arch@ != "x86_64"@
                        &&& arch@ != "aarch64"@
                    },
                },
            },
    {
        if !crate::strutil::str_starts_with(image, "alpine") {
            return Err(BuildError::UnsupportedBaseImage);
        }
        if !(crate::strutil::streq(arch, "x86_64") || crate::strutil::streq(arch, "aarch64")) {
            return Err(BuildError::UnsupportedArchitecture);
        }
        let mut cache_path = self.store.root.clone();
        cache_path.append("/alpine-");
        cache_path.append(arch);
        cache_path.append(".tar.gz");
        let mut url = String::from_str(
            "https://dl-cdn.alpinelinux.org/alpine/v3.19/releases/",
        );
        url.append(arch);
        url.append("/alpine-minirootfs-3.19.1-");
        url.append(arch);
        url.append(".tar.gz");
        Ok(PullPlan { cache_path, url, download: !cached_present })
    }
}

fn arg(s: &str) -> (r: String)
    ensures
        r@ == s@,
{
    String::from_str(s)
}

/// The `tar` arguments that extract a layer into a rootfs.
pub fn tar_extract_args(layer_path: &str, rootfs: &str) -> (r: Vec<String>)
    ensures
        r@.len() == 4,
        r@[0]@ == "-xzf"@,
        r@[1]@ == layer_path@,
        r@[2]@ == "-C"@,
        r@[3]@ == rootfs@,
{
    let mut r: Vec<String> = Vec::new();
    r.push(arg("-xzf"));
    r.push(arg(layer_path));
    r.push(arg("-C"));
    r.push(arg(rootfs));
    r
}

/// The `tar` arguments that pack a whole rootfs into a layer tarball.
pub fn tar_create_args(tarball_path: &str, rootfs: &str) -> (r: Vec<String>)
    ensures
        r@.len() == 5,
        r@[0]@ == "-czf"@,
        r@[1]@ == tarball_path@,
        r@[2]@ == "-C"@,
        r@[3]@ == rootfs@,
        r@[4]@ == "."@,
{
    let mut r: Vec<String> = Vec::new();
    r.push(arg("-czf"));
    r.push(arg(tarball_path));
    r.push(arg("-C"));
    r.push(arg(rootfs));
    r.push(arg("."));
    r
}

/// The `chroot` arguments that run a build command in the rootfs through
/// `/bin/sh -c`.
pub fn chroot_args(rootfs: &str, command: &str) -> (r: Vec<String>)
    ensures
        r@.len() == 4,
        r@[0]@ == rootfs@,
        r@[1]@ == "/bin/sh"@,
        r@[2]@ == "-c"@,
        r@[3]@ == command@,
{
    let mut r: Vec<String> = Vec::new();
    r.push(arg(rootfs));
    r.push(arg("/bin/sh"));
    r.push(arg("-c"));
    r.push(arg(command));
    r
}

/// Where the host's resolver configuration is copied before a `RUN`.
pub fn resolv_conf_dest(rootfs: &str) -> (r: String)
    ensures
        r@ == rootfs@ + "/etc/resolv.conf"@,
{
    let mut r = String::from_str(rootfs);
    r.append("/etc/resolv.conf");
    r
}

/// The scratch directory a build works in.
pub fn build_scratch_dir() -> (r: String)
    ensures
        r@ == "/tmp/container-build"@,
{
    String::from_str("/tmp/container-build")
}

/// The rootfs assembled inside the scratch directory.
pub fn build_rootfs_dir() -> (r: String)
    ensures
        r@ == "/tmp/container-build/rootfs"@,
{
    String::from_str("/tmp/container-build/rootfs")
}

/// The temporary tarball of a freshly created layer.
pub fn layer_tarball_path(id: &str) -> (r: String)
    ensures
        r@ == "/tmp/layer-"@ + id@ + ".tar.gz"@,
{
    let mut r = String::from_str("/tmp/layer-");
    r.append(id);
    r.append(".tar.gz");
    r
}

/// Recording an executed layer takes the store's build model through the
/// miss branch of [`step_spec`]: the index gains exactly the new key, and
/// the present set exactly the new digest.  This is the bridge between the
/// store updates `record_executed` promises and the model the replay law
/// speaks about.
pub proof fn lemma_record_updates_model(
    before: ImageStore,
    after: ImageStore,
    k: Seq<char>,
    d: Seq<char>,
)
    requires
        after.index.spec_get(k) == Some(d),
        forall|k2: Seq<char>| k2 != k ==> after.index.spec_get(k2) == before.index.spec_get(k2),
        string_views(after.layers@) == string_views(before.layers@).push(d),
    ensures
        model_of(after).index == model_of(before).index.insert(k, d),
        model_of(after).present == model_of(before).present.insert(d),
{
    assert(model_of(after).index =~= model_of(before).index.insert(k, d)) by {
        assert forall|k2: Seq<char>| #[trigger] model_of(after).index.contains_key(k2)
            == model_of(before).index.insert(k, d).contains_key(k2) by {}
        assert forall|k2: Seq<char>| model_of(after).index.contains_key(k2)
            implies #[trigger] model_of(after).index[k2] == model_of(before).index.insert(
            k,
            d,
        )[k2] by {}
    }
    let bv = string_views(before.layers@);
    let av = string_views(after.layers@);
    assert(model_of(after).present =~= model_of(before).present.insert(d)) by {
        assert forall|d2: Seq<char>| #[trigger] model_of(after).present.contains(d2)
            == model_of(before).present.insert(d).contains(d2) by {
            if av.contains(d2) {
                let i = choose|i: int| 0 <= i < av.len() && av[i] == d2;
                if i < bv.len() {
                    assert(bv[i] == d2);
                } else {
                    assert(d2 == d);
                }
            }
            if bv.contains(d2) {
                let i = choose|i: int| 0 <= i < bv.len() && bv[i] == d2;
                assert(av[i] == d2);
            }
            if d2 == d {
                assert(av[av.len() - 1] == d);
            }
        }
    }
}

/// The descriptor texts of an instruction sequence.
pub open spec fn descs_of(instrs: Seq<InstructionV>, hashes: Seq<Seq<char>>) -> Seq<Seq<char>> {
    Seq::new(instrs.len(), |i: int| descriptor_of(instrs[i], hashes[i]))
}

/// The chained cache keys derived from descriptor texts alone.
pub open spec fn chain_from_descs(prev: Seq<char>, descs: Seq<Seq<char>>) -> Seq<Seq<char>>
    decreases descs.len(),
{
    if descs.len() == 0 {
        Seq::empty()
    } else {
        let k = cache_key_of(prev, descs.first());
        seq![k] + chain_from_descs(k, descs.drop_first())
    }
}

/// The cache-key chain is a function of the descriptor texts alone:
/// parsing a build file, formatting its instructions back to their
/// descriptors and re-hashing yields the same chain the build derives.
pub proof fn lemma_chain_deterministic(
    prev: Seq<char>,
    instrs: Seq<InstructionV>,
    hashes: Seq<Seq<char>>,
)
    requires
        hashes.len() == instrs.len(),
    ensures
        chain_keys(prev, instrs, hashes) == chain_from_descs(prev, descs_of(instrs, hashes)),
    decreases instrs.len(),
{
    if instrs.len() > 0 {
        let descs = descs_of(instrs, hashes);
        assert(descs.first() == descriptor_of(instrs.first(), hashes.first()));
        assert(descs.drop_first() =~= descs_of(instrs.drop_first(), hashes.drop_first()));
        let k = cache_key_of(prev, descs.first());
        lemma_chain_deterministic(k, instrs.drop_first(), hashes.drop_first());
    }
}

/// Once the chain has missed, it never becomes valid again.
pub proof fn lemma_cache_valid_monotone(
    m: BuildModel,
    st: BuildStateV,
    instrs: Seq<InstructionV>,
    hashes: Seq<Seq<char>>,
    freshes: Seq<Seq<char>>,
)
    requires
        !st.cache_valid,
    ensures
        !run_build(m, st, instrs, hashes, freshes).1.cache_valid,
    decreases instrs.len(),
{
    if instrs.len() > 0 {
        let s1 = step_spec(m, st, instrs.first(), hashes.first(), freshes.first());
        lemma_cache_valid_monotone(
            s1.0,
            s1.1,
            instrs.drop_first(),
            hashes.drop_first(),
            freshes.drop_first(),
        );
    }
}

/// The layers an invalidated chain produces: one fresh digest for every
/// layer-producing instruction.
pub open spec fn fresh_layers(instrs: Seq<InstructionV>, freshes: Seq<Seq<char>>) -> Seq<
    Seq<char>,
>
    decreases instrs.len(),
{
    if instrs.len() == 0 {
        Seq::empty()
    } else if is_meta(instrs.first()) {
        fresh_layers(instrs.drop_first(), freshes.drop_first())
    } else {
        seq![freshes.first()] + fresh_layers(instrs.drop_first(), freshes.drop_first())
    }
}

/// After a miss, every later layer-producing instruction executes fresh:
/// nothing more is taken from the cache.
pub proof fn lemma_invalid_executes(
    m: BuildModel,
    st: BuildStateV,
    instrs: Seq<InstructionV>,
    hashes: Seq<Seq<char>>,
    freshes: Seq<Seq<char>>,
)
    requires
        !st.cache_valid,
    ensures
        run_build(m, st, instrs, hashes, freshes).1.layers == st.layers + fresh_layers(
            instrs,
            freshes,
        ),
    decreases instrs.len(),
{
    if instrs.len() == 0 {
        assert(st.layers + fresh_layers(instrs, freshes) =~= st.layers);
    } else {
        let s1 = step_spec(m, st, instrs.first(), hashes.first(), freshes.first());
        lemma_invalid_executes(
            s1.0,
            s1.1,
            instrs.drop_first(),
            hashes.drop_first(),
            freshes.drop_first(),
        );
        if is_meta(instrs.first()) {
            assert(s1.1.layers == st.layers);
        } else {
            assert(s1.1.layers == st.layers.push(freshes.first()));
            assert(st.layers.push(freshes.first()) + fresh_layers(
                instrs.drop_first(),
                freshes.drop_first(),
            ) =~= st.layers + fresh_layers(instrs, freshes));
        }
    }
}

/// A changed descriptor changes the bytes fed to the key hash: with the
/// same previous key, different descriptors give different hash inputs.
pub proof fn lemma_descriptor_change_changes_input(
    prev: Seq<char>,
    d1: Seq<char>,
    d2: Seq<char>,
)
    requires
        d1 != d2,
    ensures
        vstd::utf8::encode_utf8(prev) + vstd::utf8::encode_utf8(d1) != vstd::utf8::encode_utf8(
            prev,
        ) + vstd::utf8::encode_utf8(d2),
{
    broadcast use vstd::utf8::encode_utf8_decode_utf8;

    let p = vstd::utf8::encode_utf8(prev);
    let e1 = vstd::utf8::encode_utf8(d1);
    let e2 = vstd::utf8::encode_utf8(d2);
    if p + e1 == p + e2 {
        assert(e1 =~= (p + e1).skip(p.len() as int));
        assert(e2 =~= (p + e2).skip(p.len() as int));
        assert(e1 == e2);
        assert(vstd::utf8::decode_utf8(e1) == d1);
        assert(vstd::utf8::decode_utf8(e2) == d2);
    }
}

/// A build over no instructions changes nothing: it yields the store as it
/// was and the state it started from.
pub proof fn lemma_empty_build(
    m: BuildModel,
    st: BuildStateV,
    hashes: Seq<Seq<char>>,
    freshes: Seq<Seq<char>>,
)
    ensures
        run_build(m, st, Seq::empty(), hashes, freshes) == (m, st),
{
}

/// Whether every instruction is a metadata instruction.
pub open spec fn all_meta(instrs: Seq<InstructionV>) -> bool {
    forall|i: int| 0 <= i < instrs.len() ==> is_meta(#[trigger] instrs[i])
}

/// The configuration after a sequence of metadata instructions.
pub open spec fn config_fold(c: ConfigV, instrs: Seq<InstructionV>) -> ConfigV
    decreases instrs.len(),
{
    if instrs.len() == 0 {
        c
    } else {
        config_fold(config_after(c, instrs.first()), instrs.drop_first())
    }
}

/// A build of metadata instructions alone produces no layer and leaves the
/// store untouched: only the configuration reflects them.
pub proof fn lemma_metadata_only(
    m: BuildModel,
    st: BuildStateV,
    instrs: Seq<InstructionV>,
    hashes: Seq<Seq<char>>,
    freshes: Seq<Seq<char>>,
)
    requires
        all_meta(instrs),
    ensures
        run_build(m, st, instrs, hashes, freshes).0 == m,
        run_build(m, st, instrs, hashes, freshes).1.layers == st.layers,
        run_build(m, st, instrs, hashes, freshes).1.cache_valid == st.cache_valid,
        run_build(m, st, instrs, hashes, freshes).1.config == config_fold(st.config, instrs),
    decreases instrs.len(),
{
    if instrs.len() > 0 {
        assert(is_meta(instrs[0]));
        let s1 = step_spec(m, st, instrs.first(), hashes.first(), freshes.first());
        assert(forall|i: int|
            0 <= i < instrs.drop_first().len() ==> is_meta(#[trigger] instrs.drop_first()[i]));
        lemma_metadata_only(
            s1.0,
            s1.1,
            instrs.drop_first(),
            hashes.drop_first(),
            freshes.drop_first(),
        );
    }
}

/// A run only appends to the layer list.
pub proof fn lemma_run_prefix(
    m: BuildModel,
    st: BuildStateV,
    instrs: Seq<InstructionV>,
    hashes: Seq<Seq<char>>,
    freshes: Seq<Seq<char>>,
)
    ensures
        run_build(m, st, instrs, hashes, freshes).1.layers.len() >= st.layers.len(),
        run_build(m, st, instrs, hashes, freshes).1.layers.take(st.layers.len() as int)
            == st.layers,
    decreases instrs.len(),
{
    if instrs.len() == 0 {
        assert(st.layers.take(st.layers.len() as int) =~= st.layers);
    } else {
        let s1 = step_spec(m, st, instrs.first(), hashes.first(), freshes.first());
        lemma_run_prefix(
            s1.0,
            s1.1,
            instrs.drop_first(),
            hashes.drop_first(),
            freshes.drop_first(),
        );
        let sf = run_build(m, st, instrs, hashes, freshes).1;
        if s1.1.layers.len() == st.layers.len() {
            assert(s1.1.layers == st.layers);
        } else {
            assert(s1.1.layers.len() == st.layers.len() + 1);
            assert(sf.layers.take(s1.1.layers.len() as int).take(st.layers.len() as int)
                =~= sf.layers.take(st.layers.len() as int));
            assert(s1.1.layers.take(st.layers.len() as int) =~= st.layers);
        }
    }
}

/// A run never forgets a cache entry whose key it does not derive, and the
/// layer files it knows stay present.
pub proof fn lemma_preserves_entry(
    m: BuildModel,
    st: BuildStateV,
    instrs: Seq<InstructionV>,
    hashes: Seq<Seq<char>>,
    freshes: Seq<Seq<char>>,
    kk: Seq<char>,
    dd: Seq<char>,
)
    requires
        m.index.contains_key(kk),
        m.index[kk] == dd,
        m.present.contains(dd),
        !chain_keys(st.prev_key, instrs, hashes).contains(kk),
    ensures
        run_build(m, st, instrs, hashes, freshes).0.index.contains_key(kk),
        run_build(m, st, instrs, hashes, freshes).0.index[kk] == dd,
        run_build(m, st, instrs, hashes, freshes).0.present.contains(dd),
    decreases instrs.len(),
{
    if instrs.len() > 0 {
        let chain = chain_keys(st.prev_key, instrs, hashes);
        let k0 = cache_key_of(st.prev_key, descriptor_of(instrs.first(), hashes.first()));
        let tail = chain_keys(k0, instrs.drop_first(), hashes.drop_first());
        assert(chain == seq![k0] + tail);
        assert(chain[0] == k0);
        assert(k0 != kk);
        assert(!tail.contains(kk)) by {
            if tail.contains(kk) {
                let i = choose|i: int| 0 <= i < tail.len() && tail[i] == kk;
                assert(chain[i + 1] == kk);
            }
        }
        let s1 = step_spec(m, st, instrs.first(), hashes.first(), freshes.first());
        assert(s1.1.prev_key == k0);
        assert(s1.0.index.contains_key(kk) && s1.0.index[kk] == dd && s1.0.present.contains(dd));
        lemma_preserves_entry(
            s1.0,
            s1.1,
            instrs.drop_first(),
            hashes.drop_first(),
            freshes.drop_first(),
            kk,
            dd,
        );
    }
}

/// Whether the keys of a chain are pairwise distinct.
pub open spec fn distinct_keys(s: Seq<Seq<char>>) -> bool {
    forall|i: int, j: int| 0 <= i < j < s.len() ==> s[i] != s[j]
}

/// Re-running a build over the store the first run produced reuses every
/// cached layer: the second run's layer list equals the first's, the store
/// is unchanged, and the chain stays valid throughout.  The hypothesis
/// that the chain's keys are pairwise distinct rules out hash collisions
/// within one chain, which nothing can exclude for an uninterpreted
/// digest.
pub proof fn lemma_build_reproducible(
    m0: BuildModel,
    st_a: BuildStateV,
    st_b: BuildStateV,
    instrs: Seq<InstructionV>,
    hashes: Seq<Seq<char>>,
    f_a: Seq<Seq<char>>,
    f_b: Seq<Seq<char>>,
)
    requires
        st_b.prev_key == st_a.prev_key,
        st_b.cache_valid,
        distinct_keys(chain_keys(st_a.prev_key, instrs, hashes)),
    ensures
        ({
            let first = run_build(m0, st_a, instrs, hashes, f_a);
            let second = run_build(first.0, st_b, instrs, hashes, f_b);
            &&& second.1.layers == st_b.layers + first.1.layers.skip(st_a.layers.len() as int)
            &&& second.0 == first.0
            &&& second.1.cache_valid
        }),
    decreases instrs.len(),
{
    let first = run_build(m0, st_a, instrs, hashes, f_a);
    let second = run_build(first.0, st_b, instrs, hashes, f_b);
    if instrs.len() == 0 {
        assert(st_b.layers + st_a.layers.skip(st_a.layers.len() as int) =~= st_b.layers);
    } else {
        let i0 = instrs.first();
        let h0 = hashes.first();
        let chain = chain_keys(st_a.prev_key, instrs, hashes);
        let k0 = cache_key_of(st_a.prev_key, descriptor_of(i0, h0));
        let tail = chain_keys(k0, instrs.drop_first(), hashes.drop_first());
        assert(chain == seq![k0] + tail);
        assert(distinct_keys(tail)) by {
            assert forall|i: int, j: int| 0 <= i < j < tail.len() implies tail[i] != tail[j] by {
                assert(chain[i + 1] == tail[i]);
                assert(chain[j + 1] == tail[j]);
            }
        }
        assert(!tail.contains(k0)) by {
            if tail.contains(k0) {
                let i = choose|i: int| 0 <= i < tail.len() && tail[i] == k0;
                assert(chain[0] == k0 && chain[i + 1] == k0);
            }
        }
        let s_a1 = step_spec(m0, st_a, i0, h0, f_a.first());
        assert(run_build(m0, st_a, instrs, hashes, f_a) == run_build(
            s_a1.0,
            s_a1.1,
            instrs.drop_first(),
            hashes.drop_first(),
            f_a.drop_first(),
        ));
        if is_meta(i0) {
            let s_b1 = step_spec(first.0, st_b, i0, h0, f_b.first());
            assert(s_b1.0 == first.0 && s_b1.1.prev_key == k0);
            lemma_build_reproducible(
                m0,
                s_a1.1,
                s_b1.1,
                instrs.drop_first(),
                hashes.drop_first(),
                f_a.drop_first(),
                f_b.drop_first(),
            );
            assert(s_a1.1.layers == st_a.layers && s_b1.1.layers == st_b.layers);
        } else {
            let d_a: Seq<char> = if is_hit(m0, st_a, k0) {
                m0.index[k0]
            } else {
                f_a.first()
            };
            assert(s_a1.1.layers == st_a.layers.push(d_a));
            assert(s_a1.0.index.contains_key(k0) && s_a1.0.index[k0] == d_a
                && s_a1.0.present.contains(d_a));
            lemma_preserves_entry(
                s_a1.0,
                s_a1.1,
                instrs.drop_first(),
                hashes.drop_first(),
                f_a.drop_first(),
                k0,
                d_a,
            );
            assert(first.0.index.contains_key(k0) && first.0.index[k0] == d_a
                && first.0.present.contains(d_a));
            let s_b1 = step_spec(first.0, st_b, i0, h0, f_b.first());
            assert(is_hit(first.0, st_b, k0));
            assert(s_b1.0 == first.0);
            assert(s_b1.1.layers == st_b.layers.push(d_a));
            assert(s_b1.1.cache_valid);
            lemma_build_reproducible(
                s_a1.0,
                s_a1.1,
                s_b1.1,
                instrs.drop_first(),
                hashes.drop_first(),
                f_a.drop_first(),
                f_b.drop_first(),
            );
            lemma_run_prefix(
                s_a1.0,
                s_a1.1,
                instrs.drop_first(),
                hashes.drop_first(),
                f_a.drop_first(),
            );
            let n = st_a.layers.len() as int;
            assert(first.1.layers.take(n + 1) == st_a.layers.push(d_a));
            assert(first.1.layers[n] == first.1.layers.take(n + 1)[n]);
            assert(first.1.layers[n] == d_a);
            assert(first.1.layers.skip(n) =~= seq![d_a] + first.1.layers.skip(n + 1));
            assert(second.1.layers == st_b.layers.push(d_a) + first.1.layers.skip(n + 1));
            assert(st_b.layers.push(d_a) + first.1.layers.skip(n + 1) =~= st_b.layers + (
            seq![d_a] + first.1.layers.skip(n + 1)));
        }
    }
}

} // verus!