use infr::chat::{DenseSeamChat, LoadStep, MtpStep, Qwen35Chat, SeamBackend, SessionStep};

#[test]
fn a_model_is_loaded_once() {
    let mut c: Qwen35Chat<&str, u32> = Qwen35Chat::new("m.gguf");
    assert_eq!(*c.path(), "m.gguf");
    assert_eq!(c.before_generate(false), LoadStep::Load(SeamBackend::Vulkan));
    assert_eq!(c.take_model(), None);
    c.loaded(7);
    assert_eq!(c.before_generate(false), LoadStep::Run);
    assert_eq!(c.take_model(), Some(7));
    c.loaded(7);
    assert_eq!(c.before_generate(true), LoadStep::Run);
}

#[test]
fn backends_of_a_chat() {
    let cpu: Qwen35Chat<&str, u32> = Qwen35Chat::new_cpu("m");
    assert_eq!(cpu.before_generate(false), LoadStep::Load(SeamBackend::Cpu));
    let metal: Qwen35Chat<&str, u32> = Qwen35Chat::new_metal("m");
    assert_eq!(metal.before_generate(true), LoadStep::Load(SeamBackend::Metal));
    assert_eq!(metal.before_generate(false), LoadStep::MetalUnavailable);
    let v: Qwen35Chat<&str, u32> = Qwen35Chat::with_backend("m", SeamBackend::Vulkan);
    assert_eq!(v.before_generate(true), LoadStep::Load(SeamBackend::Vulkan));
}

type Dense = DenseSeamChat<&'static str, &'static str, &'static str>;

#[test]
fn drafting_is_opt_in_and_settled_once() {
    let mut c: Dense = DenseSeamChat::new("model");
    assert_eq!(c.wants_mtp(None, 1), MtpStep::No);
    // Asked and answered: a later setting does not count.
    assert_eq!(c.wants_mtp(Some("1"), 1), MtpStep::No);

    let mut c: Dense = DenseSeamChat::new("model");
    assert_eq!(c.wants_mtp(Some("0"), 1), MtpStep::No);
    let mut c: Dense = DenseSeamChat::new("model");
    assert_eq!(c.wants_mtp(Some("1"), 0), MtpStep::No);

    let mut c: Dense = DenseSeamChat::new("model");
    assert_eq!(c.wants_mtp(Some("1"), 1), MtpStep::LoadHead);
    assert_eq!(c.head(), None);
    // A failed load is not tried again.
    assert_eq!(c.wants_mtp(Some("1"), 1), MtpStep::No);
    c.mtp_loaded("head");
    assert_eq!(c.wants_mtp(None, 0), MtpStep::Yes);
    assert_eq!(c.head(), Some(&"head"));
    assert_eq!(*c.model(), "model");
}

#[test]
fn sessions_are_opened_once() {
    let mut c: Dense = DenseSeamChat::new("model");
    assert_eq!(c.before_generate(None, 4096), SessionStep::Open { max_ctx: 4096 });
    assert_eq!(c.before_generate(Some(100), 4096), SessionStep::Open { max_ctx: 100 });
    assert!(!c.warmup_resets(true));
    c.opened("session");
    assert_eq!(c.before_generate(Some(100), 4096), SessionStep::Run);
    assert!(c.warmup_resets(true));
    assert!(!c.warmup_resets(false));
    assert_eq!(c.take_session(), Some("session"));
    assert_eq!(c.take_session(), None);
}
