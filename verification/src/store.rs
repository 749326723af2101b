//! The image store: manifests, runtime configurations, the cache index,
//! and the content-addressed layer set.
//!
//! The store keeps an in-memory model of the directory it manages: which
//! layer digests are present, which manifests have been saved, and the
//! cache-key index.  Every persisted document has an exact JSON form here,
//! with a proof that loading a saved document gives back the value.  A
//! manifest can only be saved while every layer it references is present.

use vstd::prelude::*;
use vstd::string::*;
use crate::json::{
    after_tok, lemma_after_tok, lemma_pairs_round, lemma_parse_string_round,
    lemma_skip_ws_nonspace, lemma_str_list_round, pair_views, parse_pairs, parse_str_list,
    parse_string, render_jstr, render_pairs, render_pairs_into, render_str_list,
    render_str_list_into, render_string_into, scan_after_tok, scan_pairs, scan_str_list,
    scan_string, scan_ws, skip_ws,
};
use crate::strutil::{chars_eq_str, chars_string, clone_strings, push_char, str_chars, streq,
    string_views};

verus! {

/// The value of a manifest: an image name, a tag, and the ordered layer
/// digests that produce its root filesystem.
pub struct ManifestV {
    pub name: Seq<char>,
    pub tag: Seq<char>,
    pub layers: Seq<Seq<char>>,
}

/// One image manifest.
#[derive(Debug)]
pub struct ImageManifest {
    pub name: String,
    pub tag: String,
    pub layers: Vec<String>,
}

impl View for ImageManifest {
    type V = ManifestV;

    open spec fn view(&self) -> ManifestV {
        ManifestV { name: self.name@, tag: self.tag@, layers: string_views(self.layers@) }
    }
}

/// The value of a runtime configuration: the entrypoint argument vector,
/// the `KEY=VALUE` environment entries, and the working directory.
pub struct ConfigV {
    pub entrypoint: Seq<Seq<char>>,
    pub env: Seq<Seq<char>>,
    pub working_dir: Seq<char>,
}

/// How to run an image.
#[derive(Debug)]
pub struct ImageConfig {
    pub entrypoint: Vec<String>,
    pub env: Vec<String>,
    pub working_dir: String,
}

impl View for ImageConfig {
    type V = ConfigV;

    open spec fn view(&self) -> ConfigV {
        ConfigV {
            entrypoint: string_views(self.entrypoint@),
            env: string_views(self.env@),
            working_dir: self.working_dir@,
        }
    }
}

/// Why a store operation failed.
#[derive(Debug, Clone, Copy, PartialEq, Eq, Structural)]
pub enum StoreError {
    /// A manifest referenced a layer digest that is not in the store.
    MissingLayer,
    /// The manifest document did not parse.
    BadManifest,
    /// The configuration document did not parse.
    BadConfig,
}

pub open spec fn name_key() -> Seq<char> {
    seq!['n', 'a', 'm', 'e']
}

pub open spec fn tag_key() -> Seq<char> {
    seq!['t', 'a', 'g']
}

pub open spec fn layers_key() -> Seq<char> {
    seq!['l', 'a', 'y', 'e', 'r', 's']
}

pub open spec fn entrypoint_key() -> Seq<char> {
    seq!['e', 'n', 't', 'r', 'y', 'p', 'o', 'i', 'n', 't']
}

pub open spec fn env_key() -> Seq<char> {
    seq!['e', 'n', 'v']
}

pub open spec fn working_dir_key() -> Seq<char> {
    seq!['w', 'o', 'r', 'k', 'i', 'n', 'g', '_', 'd', 'i', 'r']
}

/// The JSON document of a manifest.
pub open spec fn render_manifest_doc(m: ManifestV) -> Seq<char> {
    seq!['{'] + render_jstr(name_key()) + seq![':'] + render_jstr(m.name) + seq![',']
        + render_jstr(tag_key()) + seq![':'] + render_jstr(m.tag) + seq![','] + render_jstr(
        layers_key(),
    ) + seq![':'] + render_str_list(m.layers) + seq!['}']
}

/// Parse a manifest document: the three fields in order, nothing after.
pub open spec fn parse_manifest_doc(s: Seq<char>) -> Option<ManifestV> {
    match after_tok(s, '{') {
        None => None,
        Some(t1) => match parse_string(t1) {
            None => None,
            Some((k1, r1)) => if k1 != name_key() {
                None
            } else {
                match after_tok(r1, ':') {
                    None => None,
                    Some(a1) => match parse_string(a1) {
                        None => None,
                        Some((nm, r2)) => match after_tok(r2, ',') {
                            None => None,
                            Some(a2) => match parse_string(a2) {
                                None => None,
                                Some((k2, r3)) => if k2 != tag_key() {
                                    None
                                } else {
                                    match after_tok(r3, ':') {
                                        None => None,
                                        Some(a3) => match parse_string(a3) {
                                            None => None,
                                            Some((tg, r4)) => match after_tok(r4, ',') {
                                                None => None,
                                                Some(a4) => match parse_string(a4) {
                                                    None => None,
                                                    Some((k3, r5)) => if k3 != layers_key() {
                                                        None
                                                    } else {
                                                        match after_tok(r5, ':') {
                                                            None => None,
                                                            Some(a5) => match parse_str_list(a5) {
                                                                None => None,
                                                                Some((ls, r6)) => match after_tok(
                                                                    r6,
                                                                    '}',
                                                                ) {
                                                                    None => None,
                                                                    Some(e) => if skip_ws(e).len()
                                                                        == 0 {
                                                                        Some(
                                                                            ManifestV {
                                                                                name: nm,
                                                                                tag: tg,
                                                                                layers: ls,
                                                                            },
                                                                        )
                                                                    } else {
                                                                        None
                                                                    },
                                                                },
                                                            },
                                                        }
                                                    },
                                                },
                                            },
                                        },
                                    }
                                },
                            },
                        },
                    },
                }
            },
        },
    }
}

/// Loading a saved manifest gives back the manifest.
#[verifier::rlimit(100)]
pub proof fn lemma_manifest_round_trip(m: ManifestV)
    ensures
        parse_manifest_doc(render_manifest_doc(m)) == Some(m),
{
    let u = render_manifest_doc(m);
    let r1 = seq![':'] + render_jstr(m.name) + seq![','] + render_jstr(tag_key()) + seq![':']
        + render_jstr(m.tag) + seq![','] + render_jstr(layers_key()) + seq![':'] + render_str_list(
        m.layers,
    ) + seq!['}'];
    let r2 = seq![','] + render_jstr(tag_key()) + seq![':'] + render_jstr(m.tag) + seq![',']
        + render_jstr(layers_key()) + seq![':'] + render_str_list(m.layers) + seq!['}'];
    let r3 = seq![':'] + render_jstr(m.tag) + seq![','] + render_jstr(layers_key()) + seq![':']
        + render_str_list(m.layers) + seq!['}'];
    let r4 = seq![','] + render_jstr(layers_key()) + seq![':'] + render_str_list(m.layers)
        + seq!['}'];
    let r5 = seq![':'] + render_str_list(m.layers) + seq!['}'];
    let r6 = seq!['}'];

    assert(u =~= seq!['{'] + (render_jstr(name_key()) + r1));
    lemma_after_tok('{', render_jstr(name_key()) + r1);
    lemma_parse_string_round(name_key(), r1);

    assert(r1 =~= seq![':'] + (render_jstr(m.name) + r2));
    lemma_after_tok(':', render_jstr(m.name) + r2);
    lemma_parse_string_round(m.name, r2);

    assert(r2 =~= seq![','] + (render_jstr(tag_key()) + r3));
    lemma_after_tok(',', render_jstr(tag_key()) + r3);
    lemma_parse_string_round(tag_key(), r3);

    assert(r3 =~= seq![':'] + (render_jstr(m.tag) + r4));
    lemma_after_tok(':', render_jstr(m.tag) + r4);
    lemma_parse_string_round(m.tag, r4);

    assert(r4 =~= seq![','] + (render_jstr(layers_key()) + r5));
    lemma_after_tok(',', render_jstr(layers_key()) + r5);
    lemma_parse_string_round(layers_key(), r5);

    assert(r5 =~= seq![':'] + (render_str_list(m.layers) + r6));
    lemma_after_tok(':', render_str_list(m.layers) + r6);
    lemma_str_list_round(m.layers, r6);

    assert(r6 =~= seq!['}'] + Seq::<char>::empty());
    lemma_after_tok('}', Seq::<char>::empty());
    lemma_skip_ws_nonspace(Seq::<char>::empty());
}

/// The JSON document of a runtime configuration.
pub open spec fn render_config_doc(c: ConfigV) -> Seq<char> {
    seq!['{'] + render_jstr(entrypoint_key()) + seq![':'] + render_str_list(c.entrypoint)
        + seq![','] + render_jstr(env_key()) + seq![':'] + render_str_list(c.env) + seq![',']
        + render_jstr(working_dir_key()) + seq![':'] + render_jstr(c.working_dir) + seq!['}']
}

/// Parse a configuration document: the three fields in order, nothing after.
pub open spec fn parse_config_doc(s: Seq<char>) -> Option<ConfigV> {
    match after_tok(s, '{') {
        None => None,
        Some(t1) => match parse_string(t1) {
            None => None,
            Some((k1, r1)) => if k1 != entrypoint_key() {
                None
            } else {
                match after_tok(r1, ':') {
                    None => None,
                    Some(a1) => match parse_str_list(a1) {
                        None => None,
                        Some((ep, r2)) => match after_tok(r2, ',') {
                            None => None,
                            Some(a2) => match parse_string(a2) {
                                None => None,
                                Some((k2, r3)) => if k2 != env_key() {
                                    None
                                } else {
                                    match after_tok(r3, ':') {
                                        None => None,
                                        Some(a3) => match parse_str_list(a3) {
                                            None => None,
                                            Some((ev, r4)) => match after_tok(r4, ',') {
                                                None => None,
                                                Some(a4) => match parse_string(a4) {
                                                    None => None,
                                                    Some((k3, r5)) => if k3 != working_dir_key() {
                                                        None
                                                    } else {
                                                        match after_tok(r5, ':') {
                                                            None => None,
                                                            Some(a5) => match parse_string(a5) {
                                                                None => None,
                                                                Some((wd, r6)) => match after_tok(
                                                                    r6,
                                                                    '}',
                                                                ) {
                                                                    None => None,
                                                                    Some(e) => if skip_ws(e).len()
                                                                        == 0 {
                                                                        Some(
                                                                            ConfigV {
                                                                                entrypoint: ep,
                                                                                env: ev,
                                                                                working_dir: wd,
                                                                            },
                                                                        )
                                                                    } else {
                                                                        None
                                                                    },
                                                                },
                                                            },
                                                        }
                                                    },
                                                },
                                            },
                                        },
                                    }
                                },
                            },
                        },
                    },
                }
            },
        },
    }
}

/// Loading a saved configuration gives back the configuration.
#[verifier::rlimit(100)]
pub proof fn lemma_config_round_trip(c: ConfigV)
    ensures
        parse_config_doc(render_config_doc(c)) == Some(c),
{
    let u = render_config_doc(c);
    let r1 = seq![':'] + render_str_list(c.entrypoint) + seq![','] + render_jstr(env_key())
        + seq![':'] + render_str_list(c.env) + seq![','] + render_jstr(working_dir_key())
        + seq![':'] + render_jstr(c.working_dir) + seq!['}'];
    let r2 = seq![','] + render_jstr(env_key()) + seq![':'] + render_str_list(c.env) + seq![',']
        + render_jstr(working_dir_key()) + seq![':'] + render_jstr(c.working_dir) + seq!['}'];
    let r3 = seq![':'] + render_str_list(c.env) + seq![','] + render_jstr(working_dir_key())
        + seq![':'] + render_jstr(c.working_dir) + seq!['}'];
    let r4 = seq![','] + render_jstr(working_dir_key()) + seq![':'] + render_jstr(c.working_dir)
        + seq!['}'];
    let r5 = seq![':'] + render_jstr(c.working_dir) + seq!['}'];
    let r6 = seq!['}'];

    assert(u =~= seq!['{'] + (render_jstr(entrypoint_key()) + r1));
    lemma_after_tok('{', render_jstr(entrypoint_key()) + r1);
    lemma_parse_string_round(entrypoint_key(), r1);

    assert(r1 =~= seq![':'] + (render_str_list(c.entrypoint) + r2));
    lemma_after_tok(':', render_str_list(c.entrypoint) + r2);
    lemma_str_list_round(c.entrypoint, r2);

    assert(r2 =~= seq![','] + (render_jstr(env_key()) + r3));
    lemma_after_tok(',', render_jstr(env_key()) + r3);
    lemma_parse_string_round(env_key(), r3);

    assert(r3 =~= seq![':'] + (render_str_list(c.env) + r4));
    lemma_after_tok(':', render_str_list(c.env) + r4);
    lemma_str_list_round(c.env, r4);

    assert(r4 =~= seq![','] + (render_jstr(working_dir_key()) + r5));
    lemma_after_tok(',', render_jstr(working_dir_key()) + r5);
    lemma_parse_string_round(working_dir_key(), r5);

    assert(r5 =~= seq![':'] + (render_jstr(c.working_dir) + r6));
    lemma_after_tok(':', render_jstr(c.working_dir) + r6);
    lemma_parse_string_round(c.working_dir, r6);

    assert(r6 =~= seq!['}'] + Seq::<char>::empty());
    lemma_after_tok('}', Seq::<char>::empty());
    lemma_skip_ws_nonspace(Seq::<char>::empty());
}

/// Parse a cache-index document: an object of string pairs, nothing after.
pub open spec fn parse_index_doc(s: Seq<char>) -> Option<Seq<(Seq<char>, Seq<char>)>> {
    match parse_pairs(s) {
        None => None,
        Some((es, rest)) => if skip_ws(rest).len() == 0 {
            Some(es)
        } else {
            None
        },
    }
}

/// Loading a saved cache index gives back its entries.
pub proof fn lemma_index_round_trip(es: Seq<(Seq<char>, Seq<char>)>)
    ensures
        parse_index_doc(render_pairs(es)) == Some(es),
{
    assert(render_pairs(es) + Seq::<char>::empty() =~= render_pairs(es));
    lemma_pairs_round(es, Seq::<char>::empty());
    lemma_skip_ws_nonspace(Seq::<char>::empty());
}

/// First-match lookup among key/value pairs.
pub open spec fn lookup(entries: Seq<(Seq<char>, Seq<char>)>, k: Seq<char>) -> Option<Seq<char>>
    decreases entries.len(),
{
    if entries.len() == 0 {
        None
    } else if entries.first().0 == k {
        Some(entries.first().1)
    } else {
        lookup(entries.drop_first(), k)
    }
}

/// Removing an entry leaves the lookup of every other key unchanged.
pub proof fn lemma_lookup_remove(es: Seq<(Seq<char>, Seq<char>)>, i: int)
    requires
        0 <= i < es.len(),
    ensures
        forall|k2: Seq<char>| k2 != es[i].0 ==> lookup(es.remove(i), k2) == lookup(es, k2),
    decreases i,
{
    if i == 0 {
        assert(es.remove(0) =~= es.drop_first());
    } else {
        lemma_lookup_remove(es.drop_first(), i - 1);
        assert(es.remove(i).first() == es.first());
        assert(es.remove(i).drop_first() =~= es.drop_first().remove(i - 1));
        assert(es.drop_first()[i - 1] == es[i]);
        assert forall|k2: Seq<char>| k2 != es[i].0 implies lookup(es.remove(i), k2) == lookup(
            es,
            k2,
        ) by {
            if es.first().0 != k2 {
                assert(lookup(es.remove(i), k2) == lookup(es.drop_first().remove(i - 1), k2));
                assert(lookup(es.drop_first().remove(i - 1), k2) == lookup(es.drop_first(), k2));
            }
        }
    }
}

/// The persisted cache index: an ordered list of cache-key/layer-digest
/// pairs, looked up by first match.
#[derive(Debug)]
pub struct CacheIndex {
    pub entries: Vec<(String, String)>,
}

impl CacheIndex {
    /// The digest an index assigns to a cache key, if any.
    pub open spec fn spec_get(&self, k: Seq<char>) -> Option<Seq<char>> {
        lookup(pair_views(self.entries@), k)
    }

    /// The empty index.
    pub fn new() -> (r: CacheIndex)
        ensures
            r.entries@.len() == 0,
            forall|k: Seq<char>| r.spec_get(k) is None,
    {
        let r = CacheIndex { entries: Vec::new() };
        proof {
            assert(pair_views(r.entries@).len() == 0);
        }
        r
    }

    /// Look a key up.
    pub fn get(&self, key: &str) -> (r: Option<String>)
        ensures
            match r {
                Some(d) => self.spec_get(key@) == Some(d@),
                None => self.spec_get(key@) is None,
            },
    {
        let ghost es = pair_views(self.entries@);
        proof {
            assert(es.skip(0) =~= es);
        }
        let mut i: usize = 0;
        while i < self.entries.len()
            invariant
                i <= self.entries@.len(),
                es == pair_views(self.entries@),
                lookup(es, key@) == lookup(es.skip(i as int), key@),
            decreases self.entries@.len() - i,
        {
            proof {
                assert(es.skip(i as int).first() == es[i as int]);
                assert(es.skip(i as int).drop_first() =~= es.skip(i + 1 as int));
            }
            if streq(self.entries[i].0.as_str(), key) {
                return Some(self.entries[i].1.clone());
            }
            i += 1;
        }
        proof {
            assert(es.skip(self.entries@.len() as int) =~= Seq::<(Seq<char>, Seq<char>)>::empty());
        }
        None
    }

    /// Record a key/digest pair, replacing what the key was mapped to.
    pub fn put(&mut self, key: &str, digest: &str)
        ensures
            final(self).spec_get(key@) == Some(digest@),
            forall|k2: Seq<char>|
                k2 != key@ ==> final(self).spec_get(k2) == old(self).spec_get(k2),
    {
        let ghost es = pair_views(self.entries@);
        let mut i: usize = 0;
        let mut found = self.entries.len();
        loop
            invariant_except_break
                i <= self.entries@.len(),
                self == old(self),
                es == pair_views(self.entries@),
                forall|j: int| 0 <= j < i ==> es[j].0 != key@,
            ensures
                self == old(self),
                es == pair_views(self.entries@),
                found <= self.entries@.len(),
                found < self.entries@.len() ==> es[found as int].0 == key@,
                found == self.entries@.len() ==> forall|j: int|
                    0 <= j < es.len() ==> es[j].0 != key@,
            decreases self.entries@.len() - i,
        {
            if i >= self.entries.len() {
                found = self.entries.len();
                break;
            }
            if streq(self.entries[i].0.as_str(), key) {
                found = i;
                break;
            }
            i += 1;
        }
        if found < self.entries.len() {
            let ghost fi = found as int;
            self.entries.remove(found);
            proof {
                assert(pair_views(self.entries@) =~= es.remove(fi));
                lemma_lookup_remove(es, fi);
            }
        }
        let ghost mid = pair_views(self.entries@);
        let pair = (String::from_str(key), String::from_str(digest));
        self.entries.insert(0, pair);
        proof {
            let fin = pair_views(self.entries@);
            assert(fin =~= mid.insert(0, (key@, digest@)));
            assert(fin.first() == (key@, digest@));
            assert(fin.drop_first() =~= mid);
            assert(lookup(fin, key@) == Some(digest@));
            assert forall|k2: Seq<char>| k2 != key@ implies lookup(fin, k2) == lookup(es, k2) by {
                assert(lookup(fin, k2) == lookup(mid, k2));
            }
        }
    }

    /// The JSON document of the index.
    pub fn to_json(&self) -> (r: String)
        ensures
            r@ == render_pairs(pair_views(self.entries@)),
    {
        let mut out = String::new();
        render_pairs_into(&mut out, &self.entries);
        proof {
            assert(Seq::<char>::empty() + render_pairs(pair_views(self.entries@))
                =~= render_pairs(pair_views(self.entries@)));
        }
        out
    }

    /// Read an index document.  Anything that does not parse as an object
    /// of string pairs is treated as the empty index.
    pub fn from_json(json: &str) -> (r: CacheIndex)
        ensures
            match parse_index_doc(json@) {
                Some(es) => pair_views(r.entries@) == es,
                None => r.entries@.len() == 0,
            },
    {
        let v = str_chars(json);
        proof {
            assert(v@.skip(0) =~= v@);
        }
        match scan_pairs(&v, 0) {
            None => CacheIndex { entries: Vec::new() },
            Some((entries, j)) => {
                let e = scan_ws(&v, j);
                if e == v.len() {
                    proof {
                        assert(skip_ws(v@.skip(j as int)).len() == 0);
                    }
                    CacheIndex { entries }
                } else {
                    proof {
                        assert(skip_ws(v@.skip(j as int)).len() > 0);
                    }
                    CacheIndex { entries: Vec::new() }
                }
            },
        }
    }
}

impl ImageManifest {
    /// The JSON document of this manifest.
    pub fn to_json(&self) -> (r: String)
        ensures
            r@ == render_manifest_doc(self@),
    {
        let mut out = String::new();
        push_char(&mut out, '{');
        render_string_into(&mut out, "name");
        push_char(&mut out, ':');
        render_string_into(&mut out, self.name.as_str());
        push_char(&mut out, ',');
        render_string_into(&mut out, "tag");
        push_char(&mut out, ':');
        render_string_into(&mut out, self.tag.as_str());
        push_char(&mut out, ',');
        render_string_into(&mut out, "layers");
        push_char(&mut out, ':');
        render_str_list_into(&mut out, &self.layers);
        push_char(&mut out, '}');
        proof {
            reveal_strlit("name");
            reveal_strlit("tag");
            reveal_strlit("layers");
            assert("name"@ =~= name_key());
            assert("tag"@ =~= tag_key());
            assert("layers"@ =~= layers_key());
            assert(out@ =~= render_manifest_doc(self@));
        }
        out
    }

    /// Read a manifest document.
    #[verifier::rlimit(100)]
    pub fn from_json(json: &str) -> (r: Result<ImageManifest, StoreError>)
        ensures
            match r {
                Ok(m) => parse_manifest_doc(json@) == Some(m@),
                Err(e) => parse_manifest_doc(json@) is None && e == StoreError::BadManifest,
            },
    {
        let v = str_chars(json);
        proof {
            assert(v@.skip(0) =~= v@);
            reveal_strlit("name");
            reveal_strlit("tag");
            reveal_strlit("layers");
            assert("name"@ =~= name_key());
            assert("tag"@ =~= tag_key());
            assert("layers"@ =~= layers_key());
        }
        let t1 = match scan_after_tok(&v, 0, '{') {
            None => {
                return Err(StoreError::BadManifest);
            },
            Some(j) => j,
        };
        let (k1, r1) = match scan_string(&v, t1) {
            None => {
                return Err(StoreError::BadManifest);
            },
            Some(p) => p,
        };
        if !chars_eq_str(&k1, "name") {
            return Err(StoreError::BadManifest);
        }
        let a1 = match scan_after_tok(&v, r1, ':') {
            None => {
                return Err(StoreError::BadManifest);
            },
            Some(j) => j,
        };
        let (nm, r2) = match scan_string(&v, a1) {
            None => {
                return Err(StoreError::BadManifest);
            },
            Some(p) => p,
        };
        let a2 = match scan_after_tok(&v, r2, ',') {
            None => {
                return Err(StoreError::BadManifest);
            },
            Some(j) => j,
        };
        let (k2, r3) = match scan_string(&v, a2) {
            None => {
                return Err(StoreError::BadManifest);
            },
            Some(p) => p,
        };
        if !chars_eq_str(&k2, "tag") {
            return Err(StoreError::BadManifest);
        }
        let a3 = match scan_after_tok(&v, r3, ':') {
            None => {
                return Err(StoreError::BadManifest);
            },
            Some(j) => j,
        };
        let (tg, r4) = match scan_string(&v, a3) {
            None => {
                return Err(StoreError::BadManifest);
            },
            Some(p) => p,
        };
        let a4 = match scan_after_tok(&v, r4, ',') {
            None => {
                return Err(StoreError::BadManifest);
            },
            Some(j) => j,
        };
        let (k3, r5) = match scan_string(&v, a4) {
            None => {
                return Err(StoreError::BadManifest);
            },
            Some(p) => p,
        };
        if !chars_eq_str(&k3, "layers") {
            return Err(StoreError::BadManifest);
        }
        let a5 = match scan_after_tok(&v, r5, ':') {
            None => {
                return Err(StoreError::BadManifest);
            },
            Some(j) => j,
        };
        let (ls, r6) = match scan_str_list(&v, a5) {
            None => {
                return Err(StoreError::BadManifest);
            },
            Some(p) => p,
        };
        let e = match scan_after_tok(&v, r6, '}') {
            None => {
                return Err(StoreError::BadManifest);
            },
            Some(j) => j,
        };
        if scan_ws(&v, e) != v.len() {
            proof {
                assert(skip_ws(v@.skip(e as int)).len() > 0);
            }
            return Err(StoreError::BadManifest);
        }
        proof {
            assert(skip_ws(v@.skip(e as int)).len() == 0);
        }
        Ok(ImageManifest { name: chars_string(&nm), tag: chars_string(&tg), layers: ls })
    }
}

impl ImageConfig {
    /// The JSON document of this configuration.
    pub fn to_json(&self) -> (r: String)
        ensures
            r@ == render_config_doc(self@),
    {
        let mut out = String::new();
        push_char(&mut out, '{');
        render_string_into(&mut out, "entrypoint");
        push_char(&mut out, ':');
        render_str_list_into(&mut out, &self.entrypoint);
        push_char(&mut out, ',');
        render_string_into(&mut out, "env");
        push_char(&mut out, ':');
        render_str_list_into(&mut out, &self.env);
        push_char(&mut out, ',');
        render_string_into(&mut out, "working_dir");
        push_char(&mut out, ':');
        render_string_into(&mut out, self.working_dir.as_str());
        push_char(&mut out, '}');
        proof {
            reveal_strlit("entrypoint");
            reveal_strlit("env");
            reveal_strlit("working_dir");
            assert("entrypoint"@ =~= entrypoint_key());
            assert("env"@ =~= env_key());
            assert("working_dir"@ =~= working_dir_key());
            assert(out@ =~= render_config_doc(self@));
        }
        out
    }

    /// Read a configuration document.
    #[verifier::rlimit(100)]
    pub fn from_json(json: &str) -> (r: Result<ImageConfig, StoreError>)
        ensures
            match r {
                Ok(c) => parse_config_doc(json@) == Some(c@),
                Err(e) => parse_config_doc(json@) is None && e == StoreError::BadConfig,
            },
    {
        let v = str_chars(json);
        proof {
            assert(v@.skip(0) =~= v@);
            reveal_strlit("entrypoint");
            reveal_strlit("env");
            reveal_strlit("working_dir");
            assert("entrypoint"@ =~= entrypoint_key());
            assert("env"@ =~= env_key());
            assert("working_dir"@ =~= working_dir_key());
        }
        let t1 = match scan_after_tok(&v, 0, '{') {
            None => {
                return Err(StoreError::BadConfig);
            },
            Some(j) => j,
        };
        let (k1, r1) = match scan_string(&v, t1) {
            None => {
                return Err(StoreError::BadConfig);
            },
            Some(p) => p,
        };
        if !chars_eq_str(&k1, "entrypoint") {
            return Err(StoreError::BadConfig);
        }
        let a1 = match scan_after_tok(&v, r1, ':') {
            None => {
                return Err(StoreError::BadConfig);
            },
            Some(j) => j,
        };
        let (ep, r2) = match scan_str_list(&v, a1) {
            None => {
                return Err(StoreError::BadConfig);
            },
            Some(p) => p,
        };
        let a2 = match scan_after_tok(&v, r2, ',') {
            None => {
                return Err(StoreError::BadConfig);
            },
            Some(j) => j,
        };
        let (k2, r3) = match scan_string(&v, a2) {
            None => {
                return Err(StoreError::BadConfig);
            },
            Some(p) => p,
        };
        if !chars_eq_str(&k2, "env") {
            return Err(StoreError::BadConfig);
        }
        let a3 = match scan_after_tok(&v, r3, ':') {
            None => {
                return Err(StoreError::BadConfig);
            },
            Some(j) => j,
        };
        let (ev, r4) = match scan_str_list(&v, a3) {
            None => {
                return Err(StoreError::BadConfig);
            },
            Some(p) => p,
        };
        let a4 = match scan_after_tok(&v, r4, ',') {
            None => {
                return Err(StoreError::BadConfig);
            },
            Some(j) => j,
        };
        let (k3, r5) = match scan_string(&v, a4) {
            None => {
                return Err(StoreError::BadConfig);
            },
            Some(p) => p,
        };
        if !chars_eq_str(&k3, "working_dir") {
            return Err(StoreError::BadConfig);
        }
        let a5 = match scan_after_tok(&v, r5, ':') {
            None => {
                return Err(StoreError::BadConfig);
            },
            Some(j) => j,
        };
        let (wd, r6) = match scan_string(&v, a5) {
            None => {
                return Err(StoreError::BadConfig);
            },
            Some(p) => p,
        };
        let e = match scan_after_tok(&v, r6, '}') {
            None => {
                return Err(StoreError::BadConfig);
            },
            Some(j) => j,
        };
        if scan_ws(&v, e) != v.len() {
            proof {
                assert(skip_ws(v@.skip(e as int)).len() > 0);
            }
            return Err(StoreError::BadConfig);
        }
        proof {
            assert(skip_ws(v@.skip(e as int)).len() == 0);
        }
        Ok(ImageConfig { entrypoint: ep, env: ev, working_dir: chars_string(&wd) })
    }
}

/// The views of a sequence of manifests.
pub open spec fn manifest_views(s: Seq<ImageManifest>) -> Seq<ManifestV> {
    s.map_values(|m: ImageManifest| m@)
}

pub open spec fn layers_dir() -> Seq<char> {
    seq!['/', 'l', 'a', 'y', 'e', 'r', 's']
}

pub open spec fn manifests_dir() -> Seq<char> {
    seq!['/', 'm', 'a', 'n', 'i', 'f', 'e', 's', 't', 's']
}

/// The image store model: the directory root, the layer digests present
/// under `layers/`, the manifests saved, and the cache index.
#[derive(Debug)]
pub struct ImageStore {
    pub root: String,
    pub layers: Vec<String>,
    pub manifests: Vec<ImageManifest>,
    pub index: CacheIndex,
}

impl ImageStore {
    /// Whether a layer with this digest is present.
    pub open spec fn spec_layer_exists(&self, d: Seq<char>) -> bool {
        string_views(self.layers@).contains(d)
    }

    /// Whether every layer a manifest references is present.
    pub open spec fn manifest_ok(&self, m: ManifestV) -> bool {
        forall|j: int| 0 <= j < m.layers.len() ==> self.spec_layer_exists(m.layers[j])
    }

    /// Every saved manifest references only present layers.
    pub open spec fn wf(&self) -> bool {
        forall|i: int|
            0 <= i < self.manifests@.len() ==> self.manifest_ok(#[trigger] self.manifests@[i]@)
    }

    /// An empty store at a root directory.
    pub fn new(root: String) -> (s: ImageStore)
        ensures
            s.root == root,
            s.layers@.len() == 0,
            s.manifests@.len() == 0,
            s.index.entries@.len() == 0,
            s.wf(),
    {
        ImageStore {
            root,
            layers: Vec::new(),
            manifests: Vec::new(),
            index: CacheIndex::new(),
        }
    }

    /// The directories the store needs on disk: the root, `layers/` and
    /// `manifests/`.
    pub fn store_dirs(&self) -> (r: Vec<String>)
        ensures
            r@.len() == 3,
            r@[0]@ == self.root@,
            r@[1]@ == self.root@ + layers_dir(),
            r@[2]@ == self.root@ + manifests_dir(),
    {
        let mut r: Vec<String> = Vec::new();
        r.push(self.root.clone());
        let mut d1 = self.root.clone();
        d1.append("/layers");
        r.push(d1);
        let mut d2 = self.root.clone();
        d2.append("/manifests");
        r.push(d2);
        proof {
            reveal_strlit("/layers");
            reveal_strlit("/manifests");
            assert("/layers"@ =~= layers_dir());
            assert("/manifests"@ =~= manifests_dir());
        }
        r
    }

    /// The path of a layer file.
    pub fn get_layer_path(&self, digest: &str) -> (r: String)
        ensures
            r@ == self.root@ + layers_dir() + seq!['/'] + digest@,
    {
        let mut r = self.root.clone();
        r.append("/layers/");
        r.append(digest);
        proof {
            reveal_strlit("/layers/");
            assert("/layers/"@ =~= layers_dir() + seq!['/']);
            assert(r@ =~= self.root@ + layers_dir() + seq!['/'] + digest@);
        }
        r
    }

    /// The path of a manifest file.
    pub fn manifest_path(&self, name: &str, tag: &str) -> (r: String)
        ensures
            r@ == self.root@ + manifests_dir() + seq!['/'] + name@ + seq!['/'] + tag@,
    {
        let mut r = self.root.clone();
        r.append("/manifests/");
        r.append(name);
        r.append("/");
        r.append(tag);
        proof {
            reveal_strlit("/manifests/");
            reveal_strlit("/");
            assert("/manifests/"@ =~= manifests_dir() + seq!['/']);
            assert("/"@ =~= seq!['/']);
            assert(r@ =~= self.root@ + manifests_dir() + seq!['/'] + name@ + seq!['/'] + tag@);
        }
        r
    }

    /// The path of a configuration file, beside its manifest.
    pub fn config_path(&self, name: &str, tag: &str) -> (r: String)
        ensures
            r@ == self.root@ + manifests_dir() + seq!['/'] + name@ + seq!['/'] + tag@ + seq![
                '.',
                'c',
                'o',
                'n',
                'f',
                'i',
                'g',
            ],
    {
        let mut r = self.manifest_path(name, tag);
        r.append(".config");
        proof {
            reveal_strlit(".config");
            assert(".config"@ =~= seq!['.', 'c', 'o', 'n', 'f', 'i', 'g']);
            assert(r@ =~= self.root@ + manifests_dir() + seq!['/'] + name@ + seq!['/'] + tag@
                + seq!['.', 'c', 'o', 'n', 'f', 'i', 'g']);
        }
        r
    }

    /// Record that a layer file with this digest is present on disk.
    pub fn register_layer(&mut self, digest: String)
        ensures
            final(self).layers@ == old(self).layers@.push(digest),
            final(self).root == old(self).root,
            final(self).manifests == old(self).manifests,
            final(self).index == old(self).index,
            final(self).spec_layer_exists(digest@),
            forall|d: Seq<char>|
                old(self).spec_layer_exists(d) ==> final(self).spec_layer_exists(d),
            old(self).wf() ==> final(self).wf(),
    {
        let ghost before = string_views(self.layers@);
        let ghost dv = digest@;
        self.layers.push(digest);
        proof {
            let after = string_views(self.layers@);
            assert(after =~= before.push(dv));
            assert(after[after.len() - 1] == dv);
            assert(after.contains(dv));
            assert forall|d: Seq<char>| before.contains(d) implies after.contains(d) by {
                let i = choose|i: int| 0 <= i < before.len() && before[i] == d;
                assert(after[i] == d);
            }
        }
    }

    /// Save a layer tarball's bytes: the digest names the content.
    pub fn save_layer(&mut self, data: &[u8]) -> (digest: String)
        ensures
            digest@ == crate::hashing::layer_digest_of(data@),
            final(self).layers@ == old(self).layers@.push(digest),
            final(self).root == old(self).root,
            final(self).manifests == old(self).manifests,
            final(self).index == old(self).index,
            final(self).spec_layer_exists(digest@),
            forall|d: Seq<char>|
                old(self).spec_layer_exists(d) ==> final(self).spec_layer_exists(d),
            old(self).wf() ==> final(self).wf(),
    {
        let digest = crate::hashing::layer_digest(data);
        let copy = digest.clone();
        self.register_layer(copy);
        digest
    }

    /// Whether a layer with this digest is present.
    pub fn layer_exists(&self, digest: &str) -> (r: bool)
        ensures
            r == self.spec_layer_exists(digest@),
    {
        let ghost vs = string_views(self.layers@);
        let mut i: usize = 0;
        while i < self.layers.len()
            invariant
                i <= self.layers@.len(),
                vs == string_views(self.layers@),
                forall|j: int| 0 <= j < i ==> vs[j] != digest@,
            decreases self.layers@.len() - i,
        {
            if streq(self.layers[i].as_str(), digest) {
                proof {
                    assert(vs[i as int] == digest@);
                }
                return true;
            }
            i += 1;
        }
        proof {
            assert(!vs.contains(digest@)) by {
                if vs.contains(digest@) {
                    let j = choose|j: int| 0 <= j < vs.len() && vs[j] == digest@;
                    assert(vs[j] != digest@);
                }
            }
        }
        false
    }

    /// Save a manifest: record it and hand back its document, or refuse it
    /// while any referenced layer is absent.
    pub fn save_manifest(&mut self, m: &ImageManifest) -> (r: Result<String, StoreError>)
        requires
            old(self).wf(),
        ensures
            match r {
                Ok(json) => {
                    &&& json@ == render_manifest_doc(m@)
                    &&& final(self).manifest_ok(m@)
                    &&& manifest_views(final(self).manifests@) == manifest_views(
                        old(self).manifests@,
                    ).push(m@)
                    &&& final(self).layers == old(self).layers
                    &&& final(self).root == old(self).root
                    &&& final(self).index == old(self).index
                    &&& final(self).wf()
                },
                Err(e) => {
                    &&& e == StoreError::MissingLayer
                    &&& *final(self) == *old(self)
                    &&& exists|j: int|
                        0 <= j < m@.layers.len() && !old(self).spec_layer_exists(m@.layers[j])
                },
            },
    {
        let ghost lv = string_views(m.layers@);
        let mut i: usize = 0;
        while i < m.layers.len()
            invariant
                i <= m.layers@.len(),
                lv == string_views(m.layers@),
                self == old(self),
                forall|j: int| 0 <= j < i ==> self.spec_layer_exists(#[trigger] lv[j]),
            decreases m.layers@.len() - i,
        {
            if !self.layer_exists(m.layers[i].as_str()) {
                proof {
                    assert(lv[i as int] == m.layers@[i as int]@);
                    assert(!self.spec_layer_exists(m@.layers[i as int]));
                }
                return Err(StoreError::MissingLayer);
            }
            proof {
                assert(lv[i as int] == m.layers@[i as int]@);
            }
            i += 1;
        }
        let json = m.to_json();
        let copy = ImageManifest {
            name: m.name.clone(),
            tag: m.tag.clone(),
            layers: clone_strings(&m.layers),
        };
        let ghost before = manifest_views(self.manifests@);
        proof {
            assert(copy@ == m@);
        }
        self.manifests.push(copy);
        proof {
            assert(manifest_views(self.manifests@) =~= before.push(m@));
            assert(self.manifest_ok(m@));
            assert forall|k: int| 0 <= k < self.manifests@.len() implies self.manifest_ok(
                #[trigger] self.manifests@[k]@,
            ) by {
                if k < self.manifests@.len() - 1 {
                    assert(self.manifests@[k] == old(self).manifests@[k]);
                    assert(old(self).manifest_ok(old(self).manifests@[k]@));
                } else {
                    assert(self.manifests@[k]@ == m@);
                }
            }
        }
        Ok(json)
    }

    /// Read a manifest document.
    pub fn load_manifest(&self, json: &str) -> (r: Result<ImageManifest, StoreError>)
        ensures
            match r {
                Ok(m) => parse_manifest_doc(json@) == Some(m@),
                Err(e) => parse_manifest_doc(json@) is None && e == StoreError::BadManifest,
            },
    {
        ImageManifest::from_json(json)
    }

    /// Read a configuration document.
    pub fn load_config(&self, json: &str) -> (r: Result<ImageConfig, StoreError>)
        ensures
            match r {
                Ok(c) => parse_config_doc(json@) == Some(c@),
                Err(e) => parse_config_doc(json@) is None && e == StoreError::BadConfig,
            },
    {
        ImageConfig::from_json(json)
    }

    /// Read a cache-index document; anything malformed is the empty index.
    pub fn load_cache_index(&self, json: &str) -> (r: CacheIndex)
        ensures
            match parse_index_doc(json@) {
                Some(es) => pair_views(r.entries@) == es,
                None => r.entries@.len() == 0,
            },
    {
        CacheIndex::from_json(json)
    }

    /// The document of the store's cache index.
    pub fn save_cache_index(&self) -> (r: String)
        ensures
            r@ == render_pairs(pair_views(self.index.entries@)),
    {
        self.index.to_json()
    }

    /// Replace the store's cache index, as loaded from disk.
    pub fn set_cache_index(&mut self, index: CacheIndex)
        ensures
            final(self).index == index,
            final(self).root == old(self).root,
            final(self).layers == old(self).layers,
            final(self).manifests == old(self).manifests,
            old(self).wf() ==> final(self).wf(),
    {
        self.index = index;
    }

    /// The digest the cache assigns to a key, if any.
    pub fn get_cached_layer(&self, cache_key: &str) -> (r: Option<String>)
        ensures
            match r {
                Some(d) => self.index.spec_get(cache_key@) == Some(d@),
                None => self.index.spec_get(cache_key@) is None,
            },
    {
        self.index.get(cache_key)
    }

    /// Record a cache-key/digest pair.
    pub fn cache_layer(&mut self, cache_key: &str, layer_digest: &str)
        ensures
            final(self).index.spec_get(cache_key@) == Some(layer_digest@),
            forall|k2: Seq<char>|
                k2 != cache_key@ ==> final(self).index.spec_get(k2) == old(self).index.spec_get(
                    k2,
                ),
            final(self).root == old(self).root,
            final(self).layers == old(self).layers,
            final(self).manifests == old(self).manifests,
            old(self).wf() ==> final(self).wf(),
    {
        self.index.put(cache_key, layer_digest);
    }
}

/// Every digest of every saved manifest is present in the layer set: a
/// manifest is only recorded after each of its layers has been seen.
pub proof fn lemma_saved_manifest_layers_exist(s: &ImageStore, i: int, j: int)
    requires
        s.wf(),
        0 <= i < s.manifests@.len(),
        0 <= j < s.manifests@[i]@.layers.len(),
    ensures
        s.spec_layer_exists(s.manifests@[i]@.layers[j]),
{
    assert(s.manifest_ok(s.manifests@[i]@));
}

} // verus!
