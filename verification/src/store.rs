//! The engine's own store of model files: content-addressed blobs and small manifests, laid out as
//! the registries do it, under the engine's own directory.
//!
//! ```text
//! manifests/registry.ollama.ai/<ns>/<name>/<tag>
//! manifests/huggingface.co/<org>/<repo>/<file>
//! blobs/sha256-<hex>
//! ```
//!
//! A path is a directory of the caller's, in its own form `P`, and what is joined to it. The caller
//! looks at the disk; here is decided where to look and what was found.
use vstd::prelude::*;

use crate::text::{has_char, replace_char, same_text};
use crate::text::replaced;

verus! {

/// What a user names a model by.
pub enum ModelRef<P> {
    /// A file.
    Path(P),
    /// A repository on Hugging Face, and a file of it where one is named.
    Hf { repo: String, file: Option<String> },
    /// A name and a tag of the Ollama registry.
    Ollama { name: String, tag: String },
}

/// A manifest, as far as it matters here.
pub struct OllamaManifest {
    pub layers: Vec<OllamaLayer>,
}

/// A layer of a manifest.
pub struct OllamaLayer {
    pub media_type: String,
    pub digest: String,
}

/// Media type of the layer that is the model.
pub open spec fn model_media_type() -> Seq<char> {
    "application/vnd.ollama.image.model"@
}

/// The store: its root is `base` with `root` joined to it.
pub struct Store<P> {
    pub base: P,
    pub root: Vec<String>,
}

/// There is no directory for the store.
#[derive(Clone, Copy, Debug, PartialEq, Eq, Structural)]
pub enum StoreError {
    NoCacheDir,
}

/// Where to look for a model.
pub enum Lookup<'a, P> {
    /// The model is this file, if it exists.
    File(&'a P),
    /// The model is what the manifest at this path of the store names, if it exists.
    Manifest(Vec<String>),
    /// The store cannot have it.
    Nowhere,
}

/// What the parts of a path say.
pub open spec fn parts(v: Seq<String>) -> Seq<Seq<char>> {
    v.map_values(|s: String| s@)
}

/// Name with namespace: a bare name is in `library`.
pub open spec fn full_name(name: Seq<char>) -> Seq<char> {
    if name.contains('/') {
        name
    } else {
        "library/"@ + name
    }
}

/// Path of the manifest of a model of the Ollama registry, under the root.
pub open spec fn ollama_manifest(name: Seq<char>, tag: Seq<char>) -> Seq<Seq<char>> {
    seq!["manifests"@, "registry.ollama.ai"@, full_name(name), tag]
}

/// Path of the manifest of a file on Hugging Face, under the root.
pub open spec fn hf_manifest(repo: Seq<char>, file: Seq<char>) -> Seq<Seq<char>> {
    seq!["manifests"@, "huggingface.co"@, repo, file]
}

/// Position of the first model layer from number `from` on.
pub open spec fn model_layer_from(layers: Seq<OllamaLayer>, from: int) -> Option<int>
    decreases layers.len() - from,
{
    if from < 0 || from >= layers.len() {
        None
    } else if layers[from].media_type@ == model_media_type() {
        Some(from)
    } else {
        model_layer_from(layers, from + 1)
    }
}

/// Name of the blob with the digest `digest`.
pub open spec fn blob_name(digest: Seq<char>) -> Seq<char> {
    replaced(digest, ':', '-')
}

/// Path of the blob with the digest `digest` in a store with root `root`.
pub open spec fn blob_path(root: Seq<Seq<char>>, digest: Seq<char>) -> Seq<Seq<char>> {
    root.push("blobs"@).push(blob_name(digest))
}

/// A full name has a namespace, giving a full name one more namespace changes nothing, and a bare
/// name and the same name in `library` are one.
pub proof fn law_full_name(name: Seq<char>)
    ensures
        full_name(name).contains('/'),
        full_name(full_name(name)) == full_name(name),
        name.contains('/') ==> full_name(name) == name,
        !name.contains('/') ==> full_name(name) == "library/"@ + name,
        !name.contains('/') ==> full_name("library/"@ + name) == full_name(name),
        !name.contains('/') ==> forall|tag: Seq<char>| #[trigger]
            ollama_manifest("library/"@ + name, tag) == ollama_manifest(name, tag),
{
    let long = "library/"@ + name;
    reveal_strlit("library/");
    assert(long[7] == '/');
    assert(long.contains('/'));
    if !name.contains('/') {
        assert forall|tag: Seq<char>| #[trigger]
            ollama_manifest(long, tag) == ollama_manifest(name, tag) by {
            assert(full_name(long) == full_name(name));
        }
    }
}

/// Two names are one model's only where they are the same, or one is the other in `library`.
pub proof fn law_names_differ(a: Seq<char>, b: Seq<char>)
    requires
        full_name(a) == full_name(b),
    ensures
        a == b || a == "library/"@ + b || b == "library/"@ + a,
{
    let lib = "library/"@;
    if !a.contains('/') && !b.contains('/') {
        assert((lib + a).skip(lib.len() as int) =~= a);
        assert((lib + b).skip(lib.len() as int) =~= b);
    }
}

/// The manifest of an Ollama reference is the registry's file of that tag, in the directory of the full
/// name: its last part is the tag, the one before it the full name. Two references have one path if and
/// only if their full names and their tags are equal.
pub proof fn law_ollama_manifest(
    name: Seq<char>,
    tag: Seq<char>,
    name2: Seq<char>,
    tag2: Seq<char>,
)
    ensures
        ollama_manifest(name, tag).len() == 4,
        ollama_manifest(name, tag).last() == tag,
        ollama_manifest(name, tag)[2] == full_name(name),
        ollama_manifest(name, tag)[1] == "registry.ollama.ai"@,
        ollama_manifest(name, tag)[0] == "manifests"@,
        ollama_manifest(name, tag) == ollama_manifest(name2, tag2) <==> full_name(name)
            == full_name(name2) && tag == tag2,
{
    let a = ollama_manifest(name, tag);
    let b = ollama_manifest(name2, tag2);
    assert(a[3] == tag && b[3] == tag2);
    assert(a[2] == full_name(name) && b[2] == full_name(name2));
}

/// The manifest of a file on Hugging Face is named after the file, in the directory of its repository: two
/// references have one path if and only if repository and file are equal. None is an Ollama reference's.
pub proof fn law_hf_manifest(
    repo: Seq<char>,
    file: Seq<char>,
    repo2: Seq<char>,
    file2: Seq<char>,
    name: Seq<char>,
    tag: Seq<char>,
)
    ensures
        hf_manifest(repo, file).len() == 4,
        hf_manifest(repo, file).last() == file,
        hf_manifest(repo, file)[2] == repo,
        hf_manifest(repo, file)[1] == "huggingface.co"@,
        hf_manifest(repo, file)[0] == "manifests"@,
        hf_manifest(repo, file) == hf_manifest(repo2, file2) <==> repo == repo2 && file == file2,
        hf_manifest(repo, file) != ollama_manifest(name, tag),
{
    let a = hf_manifest(repo, file);
    let b = hf_manifest(repo2, file2);
    assert(a[2] == repo && b[2] == repo2);
    assert(a[3] == file && b[3] == file2);
    reveal_strlit("huggingface.co");
    reveal_strlit("registry.ollama.ai");
    assert("huggingface.co"@.len() != "registry.ollama.ai"@.len());
    assert(a[1] != ollama_manifest(name, tag)[1]);
}

/// The model of a manifest is its first layer of the model's media type; a manifest without one has no
/// model.
pub proof fn law_model_layer(layers: Seq<OllamaLayer>, from: int)
    requires
        0 <= from <= layers.len(),
    ensures
        match model_layer_from(layers, from) {
            Some(i) => {
                &&& from <= i < layers.len()
                &&& layers[i].media_type@ == "application/vnd.ollama.image.model"@
                &&& forall|k: int|
                    from <= k < i ==> (#[trigger] layers[k]).media_type@
                        != "application/vnd.ollama.image.model"@
            },
            None => forall|k: int|
                from <= k < layers.len() ==> (#[trigger] layers[k]).media_type@
                    != "application/vnd.ollama.image.model"@,
        },
    decreases layers.len() - from,
{
    if from < layers.len() {
        law_model_layer(layers, from + 1);
    }
}

/// A blob lies in the directory of the blobs, right under the root, under its digest with a dash for each
/// colon.
pub proof fn law_blob_path(root: Seq<Seq<char>>, digest: Seq<char>)
    ensures
        blob_path(root, digest) == root + seq!["blobs"@, blob_name(digest)],
        blob_name(digest).len() == digest.len(),
        forall|i: int|
            0 <= i < digest.len() ==> #[trigger] blob_name(digest)[i] == if digest[i] == ':' {
                '-'
            } else {
                digest[i]
            },
{
    assert(blob_path(root, digest) =~= root + seq!["blobs"@, blob_name(digest)]);
}

/// A blob's name has no colon, and two digests without a dash have different names.
pub proof fn law_blob_name(a: Seq<char>, b: Seq<char>)
    ensures
        !blob_name(a).contains(':'),
        blob_name(a).len() == a.len(),
        !a.contains('-') && !b.contains('-') && blob_name(a) == blob_name(b) ==> a == b,
{
    if blob_name(a).contains(':') {
        let i = choose|i: int| 0 <= i < blob_name(a).len() && blob_name(a)[i] == ':';
        assert(blob_name(a)[i] == if a[i] == ':' {
            '-'
        } else {
            a[i]
        });
    }
    if !a.contains('-') && !b.contains('-') && blob_name(a) == blob_name(b) {
        assert(blob_name(b).len() == b.len());
        assert forall|i: int| 0 <= i < a.len() implies a[i] == b[i] by {
            assert(a.contains(a[i]));
            assert(b.contains(b[i]));
            assert(blob_name(a)[i] == blob_name(b)[i]);
        }
        assert(a =~= b);
    }
}

impl<P> Store<P> {
    /// The user's own directory where one is set, else `infr/models` in the cache directory.
    pub fn discover(models: Option<P>, cache_dir: Option<P>) -> (r: Result<Store<P>, StoreError>)
        ensures
            match r {
                Ok(s) => match models {
                    Some(p) => s.base == p && s.root@.len() == 0,
                    None => cache_dir == Some(s.base) && parts(s.root@) == seq!["infr"@, "models"@],
                },
                Err(e) => models is None && cache_dir is None && e == StoreError::NoCacheDir,
            },
    {
        match models {
            Some(p) => Ok(Store { base: p, root: Vec::new() }),
            None => match cache_dir {
                Some(c) => {
                    let mut root: Vec<String> = Vec::new();
                    root.push("infr".to_owned());
                    root.push("models".to_owned());
                    assert(parts(root@) =~= seq!["infr"@, "models"@]);
                    Ok(Store { base: c, root })
                },
                None => Err(StoreError::NoCacheDir),
            },
        }
    }

    /// Name with namespace: a bare name is in `library`.
    pub fn ollama_full_name(name: &str) -> (r: String)
        ensures
            r@ == full_name(name@),
    {
        if has_char(name, '/') {
            name.to_owned()
        } else {
            let mut s = "library/".to_owned();
            s.append(name);
            s
        }
    }

    /// The root's own parts.
    fn root_parts(&self) -> (r: Vec<String>)
        ensures
            parts(r@) == parts(self.root@),
    {
        let mut v: Vec<String> = Vec::new();
        let mut i: usize = 0;
        while i < self.root.len()
            invariant
                i <= self.root@.len(),
                v@.len() == i,
                forall|k: int| 0 <= k < i ==> (#[trigger] v@[k])@ == self.root@[k]@,
            decreases self.root.len() - i,
        {
            v.push(self.root[i].clone());
            i += 1;
        }
        assert(parts(v@) =~= parts(self.root@));
        v
    }

    /// Path of the manifest of a model of the Ollama registry.
    pub fn ollama_manifest_path(&self, name: &str, tag: &str) -> (r: Vec<String>)
        ensures
            parts(r@) == parts(self.root@) + ollama_manifest(name@, tag@),
    {
        let mut v = self.root_parts();
        let ghost before = v@;
        v.push("manifests".to_owned());
        v.push("registry.ollama.ai".to_owned());
        v.push(Self::ollama_full_name(name));
        v.push(tag.to_owned());
        assert(parts(v@) =~= parts(before) + ollama_manifest(name@, tag@));
        v
    }

    /// Path of the manifest of a file on Hugging Face.
    pub fn hf_manifest_path(&self, repo: &str, file: &str) -> (r: Vec<String>)
        ensures
            parts(r@) == parts(self.root@) + hf_manifest(repo@, file@),
    {
        let mut v = self.root_parts();
        let ghost before = v@;
        v.push("manifests".to_owned());
        v.push("huggingface.co".to_owned());
        v.push(repo.to_owned());
        v.push(file.to_owned());
        assert(parts(v@) =~= parts(before) + hf_manifest(repo@, file@));
        v
    }

    /// Path of the blobs.
    pub fn blobs_dir(&self) -> (r: Vec<String>)
        ensures
            parts(r@) == parts(self.root@).push("blobs"@),
    {
        let mut v = self.root_parts();
        let ghost before = v@;
        v.push("blobs".to_owned());
        assert(parts(v@) =~= parts(before).push("blobs"@));
        v
    }

    /// Where to look for a model. A repository without a file name cannot be looked up: which
    /// manifest it would be is not known here.
    pub fn resolve<'a>(&self, r: &'a ModelRef<P>) -> (l: Lookup<'a, P>)
        ensures
            match *r {
                ModelRef::Path(p) => l matches Lookup::File(q) && *q == p,
                ModelRef::Hf { repo, file: Some(f) } => l matches Lookup::Manifest(v) && parts(v@)
                    == parts(self.root@) + hf_manifest(repo@, f@),
                ModelRef::Hf { file: None, .. } => l is Nowhere,
                ModelRef::Ollama { name, tag } => l matches Lookup::Manifest(v) && parts(v@)
                    == parts(self.root@) + ollama_manifest(name@, tag@),
            },
    {
        match r {
            ModelRef::Path(p) => Lookup::File(p),
            ModelRef::Hf { repo, file: Some(f) } => Lookup::Manifest(
                self.hf_manifest_path(repo.as_str(), f.as_str()),
            ),
            ModelRef::Hf { file: None, .. } => Lookup::Nowhere,
            ModelRef::Ollama { name, tag } => Lookup::Manifest(
                self.ollama_manifest_path(name.as_str(), tag.as_str()),
            ),
        }
    }

    /// Path of the blob that the manifest names, where there is a manifest.
    pub fn blob_if_manifest(&self, manifest: Option<&OllamaManifest>) -> (r: Option<Vec<String>>)
        ensures
            match manifest {
                Some(m) => match model_layer_from(m.layers@, 0) {
                    Some(i) => r matches Some(v) && parts(v@) == blob_path(
                        parts(self.root@),
                        m.layers@[i].digest@,
                    ),
                    None => r is None,
                },
                None => r is None,
            },
    {
        match manifest {
            Some(m) => self.blob_from_manifest(m),
            None => None,
        }
    }

    /// Path of the blob that a manifest names: that of its first model layer. The model is in the
    /// store where the blob exists.
    pub fn blob_from_manifest(&self, manifest: &OllamaManifest) -> (r: Option<Vec<String>>)
        ensures
            match model_layer_from(manifest.layers@, 0) {
                Some(i) => r matches Some(v) && parts(v@) == blob_path(
                    parts(self.root@),
                    manifest.layers@[i].digest@,
                ),
                None => r is None,
            },
    {
        let mut i: usize = 0;
        while i < manifest.layers.len()
            invariant
                i <= manifest.layers@.len(),
                model_layer_from(manifest.layers@, 0) == model_layer_from(
                    manifest.layers@,
                    i as int,
                ),
            decreases manifest.layers.len() - i,
        {
            if same_text(
                manifest.layers[i].media_type.as_str(),
                "application/vnd.ollama.image.model",
            ) {
                let mut v = self.blobs_dir();
                let ghost before = v@;
                v.push(replace_char(manifest.layers[i].digest.as_str(), ':', '-'));
                assert(parts(v@) =~= parts(before).push(
                    blob_name(manifest.layers@[i as int].digest@),
                ));
                return Some(v);
            }
            i += 1;
        }
        None
    }
}

/// How to get a model.
pub enum Ensure<'a, P> {
    /// It is this file.
    Ready(&'a P),
    /// Look it up in the store first.
    LookUp,
    /// Fetch it, whatever the store has.
    Fetch,
}

/// How to get a model, with what the store has: a file is taken as it is, without a look at the
/// disk; anything else is looked up in the store, and fetched only where it is not there (see
/// [`ensure_fetches`]).
pub fn ensure<P>(r: &ModelRef<P>) -> (e: Ensure<P>)
    ensures
        match *r {
            ModelRef::Path(p) => e matches Ensure::Ready(q) && *q == p,
            _ => e is LookUp,
        },
{
    match r {
        ModelRef::Path(p) => Ensure::Ready(p),
        _ => Ensure::LookUp,
    }
}

/// Whether a model has to be fetched after the store was looked at: only where it was not found.
pub fn ensure_fetches<T>(found: &Option<T>) -> (r: bool)
    ensures
        r == (found is None),
{
    found.is_none()
}

/// How to get a model in its latest state: a file is taken as it is; anything else is fetched.
pub fn ensure_latest<P>(r: &ModelRef<P>) -> (e: Ensure<P>)
    ensures
        match *r {
            ModelRef::Path(p) => e matches Ensure::Ready(q) && *q == p,
            _ => e is Fetch,
        },
{
    match r {
        ModelRef::Path(p) => Ensure::Ready(p),
        _ => Ensure::Fetch,
    }
}

} // verus!
