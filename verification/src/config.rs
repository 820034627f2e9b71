//! Engine configuration: indexing tunables, dense backend selection,
//! provider settings, and the index profile hashed into snapshot identity.

use vstd::prelude::*;
use crate::text::{copy_opt_string, copy_string, decimal, owned, push_decimal, push_str, string_of};

verus! {

/// Tunables for the indexing pipeline; hashed into the index profile.
#[derive(Debug, Clone, Copy, PartialEq, Eq)]
pub struct IndexOptions {
    /// Files larger than this are skipped.
    pub max_file_bytes: u64,
    /// Source units larger than this are split into subregions.
    pub max_unit_bytes: usize,
    /// Whether dotfiles/hidden paths are indexed.
    pub include_hidden: bool,
    /// Index files whose names typically hold credentials (.env, *.key, ...).
    pub include_sensitive: bool,
    /// Whether gitignore/ignore rules are honored during the scan.
    pub respect_gitignore: bool,
    /// Completed snapshots retained besides the current one per index run.
    pub snapshot_retention: usize,
}

impl Default for IndexOptions {
    /// 2 MiB files, 64 KiB units, hidden files indexed, secrets excluded,
    /// ignore rules honored, eight retained snapshots.
    fn default() -> (r: Self)
        ensures
            r.max_file_bytes == 2 * 1024 * 1024,
            r.max_unit_bytes == 64 * 1024,
            r.include_hidden,
            !r.include_sensitive,
            r.respect_gitignore,
            r.snapshot_retention == 8,
    {
        IndexOptions {
            max_file_bytes: 2 * 1024 * 1024,
            max_unit_bytes: 64 * 1024,
            include_hidden: true,
            include_sensitive: false,
            respect_gitignore: true,
            snapshot_retention: 8,
        }
    }
}

/// Which dense embedding backend to build during indexing.
#[derive(Debug, Clone, PartialEq, Eq)]
pub enum DenseBackendConfig {
    /// No dense index; lexical/structural views only.
    Disabled,
    /// Deterministic hash-based baseline for offline tests/benchmarks.
    DeterministicBaseline { dimensions: usize },
    /// Local ONNX embedding model identified by its model code.
    Local { model: String },
}

/// The profile identifier of a dense backend.
pub open spec fn dense_profile_name(d: DenseBackendConfig) -> Option<Seq<char>> {
    match d {
        DenseBackendConfig::Disabled => None,
        DenseBackendConfig::DeterministicBaseline { dimensions } => Some(
            "deterministic-baseline-"@ + decimal(dimensions as nat),
        ),
        DenseBackendConfig::Local { model } => Some("local:"@ + model@),
    }
}

impl DenseBackendConfig {
    /// Identifier folded into the index profile hash, or `None` when dense
    /// indexing is disabled.
    pub fn profile_name(&self) -> (r: Option<String>)
        ensures
            match r {
                Some(s) => dense_profile_name(*self) == Some(s@),
                None => dense_profile_name(*self) is None,
            },
    {
        match self {
            DenseBackendConfig::Disabled => None,
            DenseBackendConfig::DeterministicBaseline { dimensions } => {
                let mut v: Vec<char> = Vec::new();
                push_str(&mut v, "deterministic-baseline-");
                push_decimal(&mut v, *dimensions as u64);
                Some(string_of(&v))
            },
            DenseBackendConfig::Local { model } => {
                let mut v: Vec<char> = Vec::new();
                push_str(&mut v, "local:");
                push_str(&mut v, model.as_str());
                Some(string_of(&v))
            },
        }
    }

    /// Whether this backend produces benchmark-meaningful embeddings: only
    /// a local model does.
    pub fn is_production(&self) -> (r: bool)
        ensures
            r == (*self is Local),
    {
        match self {
            DenseBackendConfig::Local { .. } => true,
            _ => false,
        }
    }
}

/// External code-intelligence provider (SCIP indexer) settings.
#[derive(Debug, Clone, Copy, PartialEq, Eq)]
pub struct ProviderConfig {
    /// Whether indexing invokes providers at all.
    pub enabled: bool,
    /// Per-provider subprocess timeout.
    pub timeout_secs: u64,
}

impl Default for ProviderConfig {
    /// Providers enabled, ten-minute timeout.
    fn default() -> (r: Self)
        ensures
            r.enabled,
            r.timeout_secs == 600,
    {
        ProviderConfig { enabled: true, timeout_secs: 600 }
    }
}

/// Which build product a scan+commit produces.
#[derive(Debug, Clone, Copy, PartialEq, Eq, Structural)]
pub enum IndexVariant {
    /// Full pipeline: parse, providers, dense, zoekt, history.
    Full,
    /// Shallow pass: parse + relations + artifacts only.
    Checkpoint,
}

impl Default for IndexVariant {
    /// The full pipeline.
    fn default() -> (r: Self)
        ensures
            r == IndexVariant::Full,
    {
        IndexVariant::Full
    }
}

/// Root configuration for one engine instance (single repository scope).
/// Paths are held as their text.
#[derive(Debug, Clone, PartialEq, Eq)]
pub struct EngineConfig {
    /// Repository root being indexed/served.
    pub repository_root: String,
    /// Where the engine's state lives.
    pub data_root: String,
    /// Snapshot build variant.
    pub variant: IndexVariant,
    /// Indexing tunables.
    pub index: IndexOptions,
    /// Dense embedding backend selection.
    pub dense: DenseBackendConfig,
    /// Local cross-encoder reranker model code.
    pub reranker_model: Option<String>,
    /// External provider orchestration settings.
    pub providers: ProviderConfig,
}

/// `Path::join` of a relative component onto `root`.
pub open spec fn join_path(root: Seq<char>, component: Seq<char>) -> Seq<char> {
    if root.len() == 0 {
        component
    } else if root.last() == '/' {
        root + component
    } else {
        root + "/"@ + component
    }
}

fn joined_path(root: &str, component: &str) -> (r: String)
    ensures
        r@ == join_path(root@, component@),
{
    let r = crate::text::chars_of(root);
    let mut v: Vec<char> = Vec::new();
    crate::text::push_all(&mut v, &r);
    if r.len() > 0 && r[r.len() - 1] != '/' {
        push_str(&mut v, "/");
    }
    push_str(&mut v, component);
    proof {
        if root@.len() == 0 {
            assert(v@ =~= component@);
        }
    }
    string_of(&v)
}

/// One `key = value` option of an index profile, in key order.
pub struct ProfileOption {
    pub key: String,
    pub value: String,
}

/// The index profile hashed into snapshot identity.
pub struct IndexProfile {
    pub schema_version: u32,
    pub engine_version: String,
    pub parser_profile: String,
    pub chunk_policy: String,
    pub embedding_model: Option<String>,
    pub embedding_revision: Option<String>,
    /// Options sorted by key.
    pub options: Vec<ProfileOption>,
}

/// `true`/`false` as `bool::to_string` spells them.
pub open spec fn bool_text(b: bool) -> Seq<char> {
    if b {
        "true"@
    } else {
        "false"@
    }
}

/// The profile options of a configuration, sorted by key.
pub open spec fn profile_options(c: EngineConfig) -> Seq<(Seq<char>, Seq<char>)> {
    let head = seq![
        ("call_edges"@, "v2"@),
        ("descriptor_bodies"@, "v2"@),
        ("history_diff"@, "v1"@),
        ("include_hidden"@, bool_text(c.index.include_hidden)),
        ("include_sensitive"@, bool_text(c.index.include_sensitive)),
        ("lexical_tokenizer"@, "identifier-forms-v1"@),
        ("max_file_bytes"@, decimal(c.index.max_file_bytes as nat)),
        ("max_unit_bytes"@, decimal(c.index.max_unit_bytes as nat)),
        ("respect_gitignore"@, bool_text(c.index.respect_gitignore)),
        (
            "scip_ingest"@,
            if c.providers.enabled {
                "v2"@
            } else {
                "off"@
            },
        ),
    ];
    let variant = if c.variant == IndexVariant::Checkpoint {
        seq![("snapshot_variant"@, "checkpoint"@)]
    } else {
        Seq::empty()
    };
    head + variant + seq![("type_refs"@, "v2"@)]
}

fn push_option(options: &mut Vec<ProfileOption>, key: &str, value: String)
    ensures
        final(options)@.map_values(|o: ProfileOption| (o.key@, o.value@)) == old(
            options,
        )@.map_values(|o: ProfileOption| (o.key@, o.value@)).push((key@, value@)),
{
    options.push(ProfileOption { key: owned(key), value });
    assert(options@.map_values(|o: ProfileOption| (o.key@, o.value@)) =~= old(
        options,
    )@.map_values(|o: ProfileOption| (o.key@, o.value@)).push((key@, value@)));
}

fn decimal_string(n: u64) -> (r: String)
    ensures
        r@ == decimal(n as nat),
{
    let mut v: Vec<char> = Vec::new();
    push_decimal(&mut v, n);
    assert(v@ =~= decimal(n as nat));
    string_of(&v)
}

fn bool_string(b: bool) -> (r: String)
    ensures
        r@ == bool_text(b),
{
    if b {
        owned("true")
    } else {
        owned("false")
    }
}

impl EngineConfig {
    /// Default configuration for a repository: data dir `data_dir` when
    /// one is configured, else `.cce` under the root; dense disabled,
    /// providers enabled.
    pub fn for_repository(root: &str, data_dir: Option<String>) -> (r: Self)
        ensures
            r.repository_root@ == root@,
            r.data_root@ == match data_dir {
                Some(d) => d@,
                None => join_path(root@, ".cce"@),
            },
            r.variant == IndexVariant::Full,
            r.index.max_file_bytes == 2 * 1024 * 1024,
            r.index.max_unit_bytes == 64 * 1024,
            r.index.include_hidden,
            !r.index.include_sensitive,
            r.index.respect_gitignore,
            r.index.snapshot_retention == 8,
            r.dense == DenseBackendConfig::Disabled,
            r.reranker_model is None,
            r.providers.enabled,
            r.providers.timeout_secs == 600,
    {
        let data_root = match data_dir {
            Some(d) => d,
            None => joined_path(root, ".cce"),
        };
        EngineConfig {
            repository_root: owned(root),
            data_root,
            variant: IndexVariant::Full,
            index: IndexOptions::default(),
            dense: DenseBackendConfig::Disabled,
            reranker_model: None,
            providers: ProviderConfig::default(),
        }
    }

    /// The index profile hashed into snapshot identity, for the given data
    /// format version and engine version: every setting that can change
    /// index output appears in it.
    pub fn profile(&self, schema_version: u32, engine_version: &str) -> (r: IndexProfile)
        ensures
            r.schema_version == schema_version,
            r.engine_version@ == engine_version@,
            r.parser_profile@ == "tree-sitter-v1"@,
            r.chunk_policy@ == "ast-l0-l1-l2-max-"@ + decimal(self.index.max_unit_bytes as nat),
            match r.embedding_model {
                Some(m) => dense_profile_name(self.dense) == Some(m@),
                None => dense_profile_name(self.dense) is None,
            },
            r.embedding_revision is None,
            r.options@.map_values(|o: ProfileOption| (o.key@, o.value@)) == profile_options(
                *self,
            ),
    {
        let mut options: Vec<ProfileOption> = Vec::new();
        push_option(&mut options, "call_edges", owned("v2"));
        push_option(&mut options, "descriptor_bodies", owned("v2"));
        push_option(&mut options, "history_diff", owned("v1"));
        push_option(&mut options, "include_hidden", bool_string(self.index.include_hidden));
        push_option(&mut options, "include_sensitive", bool_string(self.index.include_sensitive));
        push_option(&mut options, "lexical_tokenizer", owned("identifier-forms-v1"));
        push_option(&mut options, "max_file_bytes", decimal_string(self.index.max_file_bytes));
        push_option(
            &mut options,
            "max_unit_bytes",
            decimal_string(self.index.max_unit_bytes as u64),
        );
        push_option(&mut options, "respect_gitignore", bool_string(self.index.respect_gitignore));
        let scip = if self.providers.enabled {
            owned("v2")
        } else {
            owned("off")
        };
        push_option(&mut options, "scip_ingest", scip);
        if self.variant == IndexVariant::Checkpoint {
            push_option(&mut options, "snapshot_variant", owned("checkpoint"));
        }
        push_option(&mut options, "type_refs", owned("v2"));
        proof {
            let got = options@.map_values(|o: ProfileOption| (o.key@, o.value@));
            assert(got =~= profile_options(*self));
        }
        let mut policy: Vec<char> = Vec::new();
        push_str(&mut policy, "ast-l0-l1-l2-max-");
        push_decimal(&mut policy, self.index.max_unit_bytes as u64);
        IndexProfile {
            schema_version,
            engine_version: owned(engine_version),
            parser_profile: owned("tree-sitter-v1"),
            chunk_policy: string_of(&policy),
            embedding_model: self.dense.profile_name(),
            embedding_revision: None,
            options,
        }
    }
}

impl IndexProfile {
    /// The value of option `key`, if the profile has it.
    pub fn option(&self, key: &str) -> (r: Option<String>)
        ensures
            match r {
                Some(v) => exists|i: int|
                    0 <= i < self.options@.len() && self.options@[i].key@ == key@
                        && #[trigger] self.options@[i].value@ == v@,
                None => forall|i: int|
                    0 <= i < self.options@.len() ==> #[trigger] self.options@[i].key@ != key@,
            },
    {
        let k = crate::text::chars_of(key);
        for i in 0..self.options.len()
            invariant
                k@ == key@,
                forall|j: int| 0 <= j < i ==> #[trigger] self.options@[j].key@ != key@,
        {
            if crate::text::eq_chars(&crate::text::chars_of(self.options[i].key.as_str()), &k) {
                let v = copy_string(&self.options[i].value);
                assert(self.options@[i as int].value@ == v@);
                return Some(v);
            }
        }
        None
    }
}

/// The hash of an index profile: BLAKE3 (lower-case hex) of the bytes of
/// its stored JSON form.
pub fn profile_hash(profile_json: &[u8]) -> (r: String)
    ensures
        r@ == crate::digest::blake3_hex_of(profile_json@),
{
    crate::digest::blake3_hex(profile_json)
}

} // verus!
