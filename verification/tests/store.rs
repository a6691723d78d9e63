use infr::store::{
    ensure, ensure_fetches, ensure_latest, Ensure, Lookup, ModelRef, OllamaLayer, OllamaManifest,
    Store, StoreError,
};

/// A disk that holds these files; a manifest has its text.
struct Disk {
    files: Vec<(String, String)>,
}

impl Disk {
    fn new() -> Disk {
        Disk { files: Vec::new() }
    }

    fn write(&mut self, path: &str, text: &str) {
        self.files.push((path.to_string(), text.to_string()));
    }

    fn read(&self, path: &str) -> Option<&str> {
        self.files.iter().find(|(p, _)| p == path).map(|(_, t)| t.as_str())
    }

    fn has(&self, path: &str) -> bool {
        self.read(path).is_some()
    }
}

fn join(base: &str, parts: &[String]) -> String {
    let mut s = base.to_string();
    for p in parts {
        s.push('/');
        s.push_str(p);
    }
    s
}

fn parse(text: &str) -> OllamaManifest {
    let v: serde_json::Value = serde_json::from_str(text).unwrap();
    let mut layers = Vec::new();
    for l in v.get("layers").unwrap().as_array().unwrap() {
        layers.push(OllamaLayer {
            media_type: l.get("mediaType").unwrap().as_str().unwrap().to_string(),
            digest: l.get("digest").unwrap().as_str().unwrap().to_string(),
        });
    }
    OllamaManifest { layers }
}

fn resolve(store: &Store<String>, disk: &Disk, r: &ModelRef<String>) -> Option<String> {
    match store.resolve(r) {
        Lookup::File(p) => {
            if disk.has(p) {
                Some(p.clone())
            } else {
                None
            }
        }
        Lookup::Manifest(parts) => {
            let manifest = disk.read(&join(&store.base, &parts)).map(parse);
            let blob = join(&store.base, &store.blob_if_manifest(manifest.as_ref())?);
            if disk.has(&blob) {
                Some(blob)
            } else {
                None
            }
        }
        Lookup::Nowhere => None,
    }
}

fn store() -> Store<String> {
    Store { base: "/store".to_string(), root: Vec::new() }
}

fn fake_manifest(digest: &str) -> String {
    format!(
        "{{\"schemaVersion\": 2, \
          \"mediaType\": \"application/vnd.docker.distribution.manifest.v2+json\", \
          \"config\": {{\"mediaType\": \"application/vnd.ollama.image.config\", \
          \"digest\": \"{digest}\", \"size\": 0}}, \
          \"layers\": [{{\"mediaType\": \"application/vnd.ollama.image.model\", \
          \"digest\": \"{digest}\", \"size\": 42}}]}}"
    )
}

#[test]
fn resolve_ollama_simple_name() {
    let digest = "sha256:aabbccddeeff001122334455667788990011223344556677889900aabbccddeeff";
    let blob_name = digest.replace(':', "-");
    let mut disk = Disk::new();
    disk.write(
        "/store/manifests/registry.ollama.ai/library/testmodel/latest",
        &fake_manifest(digest),
    );
    disk.write(&format!("/store/blobs/{blob_name}"), "fake gguf data");
    let mr = ModelRef::Ollama { name: "testmodel".into(), tag: "latest".into() };
    let result = resolve(&store(), &disk, &mr);
    assert!(result.is_some(), "expected blob path, got None");
    assert!(disk.has(&result.unwrap()));
}

#[test]
fn resolve_ollama_namespaced() {
    let digest = "sha256:deadbeefdeadbeefdeadbeefdeadbeefdeadbeefdeadbeefdeadbeefdeadbeef";
    let blob_name = digest.replace(':', "-");
    let mut disk = Disk::new();
    disk.write(
        "/store/manifests/registry.ollama.ai/library/qwen2.5/latest",
        &fake_manifest(digest),
    );
    disk.write(&format!("/store/blobs/{blob_name}"), "fake gguf");
    let mr = ModelRef::Ollama { name: "library/qwen2.5".into(), tag: "latest".into() };
    let result = resolve(&store(), &disk, &mr);
    assert!(result.is_some(), "expected blob path, got None");
}

#[test]
fn resolve_missing_returns_none() {
    let mr = ModelRef::Ollama { name: "doesnotexist".into(), tag: "latest".into() };
    assert_eq!(resolve(&store(), &Disk::new(), &mr), None);
}

#[test]
fn resolve_manifest_no_blob() {
    let digest = "sha256:0000000000000000000000000000000000000000000000000000000000000001";
    let mut disk = Disk::new();
    disk.write(
        "/store/manifests/registry.ollama.ai/library/ghostmodel/v1",
        &fake_manifest(digest),
    );
    let mr = ModelRef::Ollama { name: "ghostmodel".into(), tag: "v1".into() };
    assert_eq!(resolve(&store(), &disk, &mr), None);
}

#[test]
fn resolve_hf_is_none() {
    let mr = ModelRef::Hf { repo: "org/repo".into(), file: None };
    assert_eq!(resolve(&store(), &Disk::new(), &mr), None);
}

#[test]
fn resolve_path_exists() {
    let mut disk = Disk::new();
    disk.write("/store/model.gguf", "fake");
    let mr = ModelRef::Path("/store/model.gguf".to_string());
    assert_eq!(resolve(&store(), &disk, &mr), Some("/store/model.gguf".to_string()));
}

#[test]
fn resolve_path_missing() {
    let mr = ModelRef::Path("/store/nofile.gguf".to_string());
    assert_eq!(resolve(&store(), &Disk::new(), &mr), None);
}

#[test]
fn hf_file_resolves_through_its_manifest() {
    let digest = "sha256:0123";
    let mut disk = Disk::new();
    disk.write("/store/manifests/huggingface.co/org/repo/m.gguf", &fake_manifest(digest));
    disk.write("/store/blobs/sha256-0123", "x");
    let mr = ModelRef::Hf { repo: "org/repo".into(), file: Some("m.gguf".into()) };
    assert_eq!(resolve(&store(), &disk, &mr), Some("/store/blobs/sha256-0123".to_string()));
}

#[test]
fn first_model_layer_wins_and_others_are_skipped() {
    let layer = |t: &str, d: &str| OllamaLayer { media_type: t.into(), digest: d.into() };
    let m = OllamaManifest {
        layers: vec![
            layer("application/vnd.ollama.image.license", "sha256:1"),
            layer("application/vnd.ollama.image.model", "sha256:2"),
            layer("application/vnd.ollama.image.model", "sha256:3"),
        ],
    };
    assert_eq!(store().blob_from_manifest(&m), Some(vec!["blobs".into(), "sha256-2".into()]));
    let none = OllamaManifest { layers: vec![layer("text/plain", "sha256:1")] };
    assert_eq!(store().blob_from_manifest(&none), None);
}

#[test]
fn full_names_have_a_namespace() {
    assert_eq!(Store::<String>::ollama_full_name("llama3"), "library/llama3");
    assert_eq!(Store::<String>::ollama_full_name("me/llama3"), "me/llama3");
    assert_eq!(Store::<String>::ollama_full_name("library/llama3"), "library/llama3");
    assert_eq!(
        store().ollama_manifest_path("llama3", "8b"),
        store().ollama_manifest_path("library/llama3", "8b"),
    );
}

#[test]
fn discover_prefers_the_setting() {
    let s = Store::discover(Some("/m".to_string()), Some("/c".to_string())).ok().unwrap();
    assert_eq!((s.base.as_str(), s.root.len()), ("/m", 0));
    let s = Store::discover(None, Some("/c".to_string())).ok().unwrap();
    assert_eq!(join(&s.base, &s.root), "/c/infr/models");
    assert_eq!(join(&s.base, &s.blobs_dir()), "/c/infr/models/blobs");
    assert_eq!(Store::<String>::discover(None, None).err(), Some(StoreError::NoCacheDir));
}

#[test]
fn ensure_takes_files_as_they_are() {
    let file = ModelRef::Path("x.gguf".to_string());
    let named: ModelRef<String> = ModelRef::Ollama { name: "a".into(), tag: "b".into() };
    assert!(matches!(ensure(&file), Ensure::Ready(p) if p == "x.gguf"));
    assert!(matches!(ensure_latest(&file), Ensure::Ready(p) if p == "x.gguf"));
    assert!(matches!(ensure(&named), Ensure::LookUp));
    assert!(matches!(ensure_latest(&named), Ensure::Fetch));
    assert!(ensure_fetches::<String>(&None));
    assert!(!ensure_fetches(&Some("blob")));
}
