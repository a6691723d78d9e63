//! What a chat does between turns: which part of the engine has to be brought up before a prompt can
//! run. The engine's parts are the caller's, in its own types.
use vstd::prelude::*;

use crate::text::same_text;

verus! {

/// Where a model runs.
#[derive(Clone, Copy, Debug, PartialEq, Eq, Structural)]
pub enum SeamBackend {
    Vulkan,
    Cpu,
    Metal,
}

/// What has to be done before a `qwen35` chat can run a prompt.
#[derive(Clone, Copy, Debug, PartialEq, Eq, Structural)]
pub enum LoadStep {
    /// Nothing: the model is loaded.
    Run,
    /// The model has to be loaded on this backend; then [`Qwen35Chat::loaded`] is due.
    Load(SeamBackend),
    /// The model cannot run on this system.
    MetalUnavailable,
}

/// A `qwen35` chat: the model is loaded on the first turn and kept. `P` is the file's path, `M` the
/// loaded model.
pub struct Qwen35Chat<P, M> {
    path: P,
    backend: SeamBackend,
    seam: Option<M>,
}

impl<P, M> Qwen35Chat<P, M> {
    pub closed spec fn file(&self) -> P {
        self.path
    }

    pub closed spec fn runs_on(&self) -> SeamBackend {
        self.backend
    }

    pub closed spec fn held(&self) -> Option<M> {
        self.seam
    }

    /// A chat on the production backend.
    pub fn new(path: P) -> (r: Self)
        ensures
            r.file() == path,
            r.runs_on() == SeamBackend::Vulkan,
            r.held() is None,
    {
        Self::with_backend(path, SeamBackend::Vulkan)
    }

    /// A chat on the reference backend of the processor.
    pub fn new_cpu(path: P) -> (r: Self)
        ensures
            r.file() == path,
            r.runs_on() == SeamBackend::Cpu,
            r.held() is None,
    {
        Self::with_backend(path, SeamBackend::Cpu)
    }

    /// A chat on the reference backend of Metal.
    pub fn new_metal(path: P) -> (r: Self)
        ensures
            r.file() == path,
            r.runs_on() == SeamBackend::Metal,
            r.held() is None,
    {
        Self::with_backend(path, SeamBackend::Metal)
    }

    pub fn with_backend(path: P, backend: SeamBackend) -> (r: Self)
        ensures
            r.file() == path,
            r.runs_on() == backend,
            r.held() is None,
    {
        Qwen35Chat { path, backend, seam: None }
    }

    pub fn path(&self) -> (r: &P)
        ensures
            *r == self.file(),
    {
        &self.path
    }

    /// What has to be done before a prompt can run. Metal is there on macOS only.
    pub fn before_generate(&self, on_macos: bool) -> (r: LoadStep)
        ensures
            r == if self.held() is Some {
                LoadStep::Run
            } else if self.runs_on() == SeamBackend::Metal && !on_macos {
                LoadStep::MetalUnavailable
            } else {
                LoadStep::Load(self.runs_on())
            },
    {
        if self.seam.is_some() {
            return LoadStep::Run;
        }
        match self.backend {
            SeamBackend::Vulkan => LoadStep::Load(SeamBackend::Vulkan),
            SeamBackend::Cpu => LoadStep::Load(SeamBackend::Cpu),
            SeamBackend::Metal => if on_macos {
                LoadStep::Load(SeamBackend::Metal)
            } else {
                LoadStep::MetalUnavailable
            },
        }
    }

    /// Keeps the model that was loaded.
    pub fn loaded(&mut self, model: M)
        ensures
            final(self).held() == Some(model),
            final(self).file() == old(self).file(),
            final(self).runs_on() == old(self).runs_on(),
    {
        self.seam = Some(model);
    }

    /// Hands the model out to run a prompt; it has to be handed back with [`Self::loaded`].
    pub fn take_model(&mut self) -> (r: Option<M>)
        ensures
            r == old(self).held(),
            final(self).held() is None,
            final(self).file() == old(self).file(),
            final(self).runs_on() == old(self).runs_on(),
    {
        self.seam.take()
    }
}

/// Whether a chat drafts several tokens ahead with the model's extra head.
#[derive(Clone, Copy, Debug, PartialEq, Eq, Structural)]
pub enum MtpStep {
    /// It does: the head is loaded.
    Yes,
    /// It does not.
    No,
    /// The head has to be loaded; then [`DenseSeamChat::mtp_loaded`] is due.
    LoadHead,
}

/// What has to be done before a prompt can run.
#[derive(Clone, Copy, Debug, PartialEq, Eq, Structural)]
pub enum SessionStep {
    /// Nothing: the session is open.
    Run,
    /// A session for this many tokens has to be opened; then [`DenseSeamChat::opened`] is due.
    Open { max_ctx: usize },
}

/// A chat on the Vulkan backend, whose session keeps what earlier turns computed. `M` is the model,
/// `S` an open session, `H` a loaded head.
pub struct DenseSeamChat<M, S, H> {
    model: M,
    session: Option<S>,
    mtp_head: Option<H>,
    mtp_checked: bool,
}

/// What a chat knows.
pub struct DenseModel<M, S, H> {
    pub model: M,
    pub session: Option<S>,
    pub mtp_head: Option<H>,
    pub mtp_checked: bool,
}

impl<M, S, H> View for DenseSeamChat<M, S, H> {
    type V = DenseModel<M, S, H>;

    closed spec fn view(&self) -> DenseModel<M, S, H> {
        DenseModel {
            model: self.model,
            session: self.session,
            mtp_head: self.mtp_head,
            mtp_checked: self.mtp_checked,
        }
    }
}

/// Whether a chat drafts ahead, given the user's setting and the number of extra layers of the
/// model. The question is settled when it is first asked.
pub open spec fn mtp_step<M, S, H>(
    m: DenseModel<M, S, H>,
    setting: Option<Seq<char>>,
    n_layer_nextn: usize,
) -> MtpStep {
    if m.mtp_head is Some {
        MtpStep::Yes
    } else if m.mtp_checked {
        MtpStep::No
    } else if setting != Some("1"@) || n_layer_nextn == 0 {
        MtpStep::No
    } else {
        MtpStep::LoadHead
    }
}

/// What the chat knows after it was asked whether it drafts ahead.
pub open spec fn mtp_asked<M, S, H>(m: DenseModel<M, S, H>) -> DenseModel<M, S, H> {
    if m.mtp_head is Some {
        m
    } else {
        DenseModel { mtp_checked: true, ..m }
    }
}

/// Once the question whether to draft ahead was asked, the answer stays, whatever the setting is
/// later: no, unless a head was loaded since, and then yes. A failed load is asked for once.
pub proof fn law_mtp_settled<M, S, H>(
    m: DenseModel<M, S, H>,
    setting: Option<Seq<char>>,
    n_layer_nextn: usize,
    head: H,
)
    ensures
        mtp_step(mtp_asked(m), setting, n_layer_nextn) == (if m.mtp_head is Some {
            MtpStep::Yes
        } else {
            MtpStep::No
        }),
        mtp_step((DenseModel { mtp_head: Some(head), ..m }), setting, n_layer_nextn)
            == MtpStep::Yes,
        mtp_asked(mtp_asked(m)) == mtp_asked(m),
{
}

/// Without the setting, or with a model that has no extra layers, a chat that has no head never
/// drafts ahead.
pub proof fn law_mtp_is_opt_in<M, S, H>(
    m: DenseModel<M, S, H>,
    setting: Option<Seq<char>>,
    n_layer_nextn: usize,
)
    requires
        m.mtp_head is None,
        setting != Some("1"@) || n_layer_nextn == 0,
    ensures
        mtp_step(m, setting, n_layer_nextn) == MtpStep::No,
{
}

/// With the setting and a model that has extra layers, the first time that the question is asked the head
/// has to be loaded. Asking changes nothing of what the chat holds but that it was asked.
pub proof fn law_mtp_loads_once<M, S, H>(
    m: DenseModel<M, S, H>,
    setting: Option<Seq<char>>,
    n_layer_nextn: usize,
)
    ensures
        mtp_step(m, setting, n_layer_nextn) == MtpStep::LoadHead <==> m.mtp_head is None
            && !m.mtp_checked && setting == Some("1"@) && n_layer_nextn > 0,
        mtp_step(m, setting, n_layer_nextn) == MtpStep::Yes <==> m.mtp_head is Some,
        mtp_asked(m).model == m.model,
        mtp_asked(m).session == m.session,
        mtp_asked(m).mtp_head == m.mtp_head,
        m.mtp_head is None ==> mtp_asked(m).mtp_checked,
{
}

impl<M, S, H> DenseSeamChat<M, S, H> {
    pub fn new(model: M) -> (r: Self)
        ensures
            r@ == (DenseModel::<M, S, H> {
                model,
                session: None,
                mtp_head: None,
                mtp_checked: false,
            }),
    {
        DenseSeamChat { model, session: None, mtp_head: None, mtp_checked: false }
    }

    pub fn model(&self) -> (r: &M)
        ensures
            *r == self@.model,
    {
        &self.model
    }

    /// Whether the chat drafts ahead. `setting` is the user's setting, `n_layer_nextn` the number of
    /// extra layers of the model.
    pub fn wants_mtp(&mut self, setting: Option<&str>, n_layer_nextn: usize) -> (r: MtpStep)
        ensures
            r == mtp_step(
                old(self)@,
                match setting {
                    Some(s) => Some(s@),
                    None => None,
                },
                n_layer_nextn,
            ),
            final(self)@ == mtp_asked(old(self)@),
    {
        if self.mtp_head.is_some() {
            return MtpStep::Yes;
        }
        if self.mtp_checked {
            return MtpStep::No;
        }
        self.mtp_checked = true;
        match setting {
            Some(s) => if !same_text(s, "1") {
                return MtpStep::No;
            },
            None => {
                return MtpStep::No;
            },
        }
        if n_layer_nextn == 0 {
            return MtpStep::No;
        }
        MtpStep::LoadHead
    }

    /// Keeps the head that was loaded.
    pub fn mtp_loaded(&mut self, head: H)
        ensures
            final(self)@ == (DenseModel { mtp_head: Some(head), ..old(self)@ }),
    {
        self.mtp_head = Some(head);
    }

    pub fn head(&self) -> (r: Option<&H>)
        ensures
            match r {
                Some(h) => self@.mtp_head == Some(*h),
                None => self@.mtp_head is None,
            },
    {
        match &self.mtp_head {
            Some(h) => Some(h),
            None => None,
        }
    }

    /// What has to be done before a prompt can run in the session. A new session has room for as many
    /// tokens as the user asks for, else for as many as the model was trained with.
    pub fn before_generate(&self, max_ctx: Option<usize>, n_ctx_train: usize) -> (r: SessionStep)
        ensures
            r == if self@.session is Some {
                SessionStep::Run
            } else {
                SessionStep::Open {
                    max_ctx: match max_ctx {
                        Some(n) => n,
                        None => n_ctx_train,
                    },
                }
            },
    {
        if self.session.is_some() {
            return SessionStep::Run;
        }
        match max_ctx {
            Some(n) => SessionStep::Open { max_ctx: n },
            None => SessionStep::Open { max_ctx: n_ctx_train },
        }
    }

    /// Keeps the session that was opened.
    pub fn opened(&mut self, session: S)
        ensures
            final(self)@ == (DenseModel { session: Some(session), ..old(self)@ }),
    {
        self.session = Some(session);
    }

    /// Hands the session out to run a prompt; it has to be handed back with [`Self::opened`].
    pub fn take_session(&mut self) -> (r: Option<S>)
        ensures
            r == old(self)@.session,
            final(self)@ == (DenseModel { session: None, ..old(self)@ }),
    {
        self.session.take()
    }

    /// Whether a warm-up that went well leaves tokens behind that have to be dropped: where a session
    /// ran it.
    pub fn warmup_resets(&self, warmed: bool) -> (r: bool)
        ensures
            r == (warmed && self@.session is Some),
    {
        warmed && self.session.is_some()
    }
}

} // verus!
