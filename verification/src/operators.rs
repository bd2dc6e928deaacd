//! The operator chain that turns segments into beats and scenes.

use vstd::prelude::*;

use crate::config::Config;

verus! {

/// Settings of the operators that ask a language model.
pub struct LlmConfig {
    pub endpoint: String,
    pub model: String,
    pub gm_speaker_id: Option<String>,
}

/// The operators that run over a transcript.
pub enum OperatorChain {
    /// The operators that need no language model.
    Standard,
    /// Beats and scenes are found by a language model; both operators have the
    /// same settings.
    WithLlm(LlmConfig),
}

impl OperatorChain {
    /// The chain that these settings ask for.
    pub open spec fn chosen_by(
        self,
        scene_llm_url: Option<String>,
        scene_llm_model: String,
        gm_speaker_id: Option<String>,
    ) -> bool {
        match scene_llm_url {
            Some(url) => self == OperatorChain::WithLlm(
                LlmConfig { endpoint: url, model: scene_llm_model, gm_speaker_id },
            ),
            None => self is Standard,
        }
    }
}

fn copy_of(s: &Option<String>) -> (c: Option<String>)
    ensures
        c == *s,
{
    match s {
        Some(t) => Some(t.clone()),
        None => None,
    }
}

/// The pipeline's runner in production: the settings that decide which
/// operators run.
pub struct RealPipelineRunner {
    /// Pseudonym of the game master, if it is known.
    pub gm_speaker_id: Option<String>,
    /// Endpoint of the language model. Without it no operator asks one.
    pub scene_llm_url: Option<String>,
    /// Name of the language model.
    pub scene_llm_model: String,
}

impl RealPipelineRunner {
    /// The runner for a worker's configuration.
    pub fn new(cfg: &Config) -> (r: RealPipelineRunner)
        ensures
            r.gm_speaker_id == cfg.gm_speaker_id,
            r.scene_llm_url == cfg.scene_llm_url,
            r.scene_llm_model == cfg.scene_llm_model,
    {
        RealPipelineRunner {
            gm_speaker_id: copy_of(&cfg.gm_speaker_id),
            scene_llm_url: copy_of(&cfg.scene_llm_url),
            scene_llm_model: cfg.scene_llm_model.clone(),
        }
    }

    /// The operators that the runner's settings choose.
    pub fn operators(&self) -> (chain: OperatorChain)
        ensures
            chain.chosen_by(self.scene_llm_url, self.scene_llm_model, self.gm_speaker_id),
            chain is Standard <==> self.scene_llm_url is None,
            chain matches OperatorChain::WithLlm(llm) ==> {
                &&& Some(llm.endpoint) == self.scene_llm_url
                &&& llm.model == self.scene_llm_model
                &&& llm.gm_speaker_id == self.gm_speaker_id
            },
    {
        match &self.scene_llm_url {
            Some(url) => OperatorChain::WithLlm(
                LlmConfig {
                    endpoint: url.clone(),
                    model: self.scene_llm_model.clone(),
                    gm_speaker_id: copy_of(&self.gm_speaker_id),
                },
            ),
            None => OperatorChain::Standard,
        }
    }
}

/// The operators that a worker's configuration chooses.
pub fn build_operators(cfg: &Config) -> (chain: OperatorChain)
    ensures
        chain.chosen_by(cfg.scene_llm_url, cfg.scene_llm_model, cfg.gm_speaker_id),
        chain is Standard <==> cfg.scene_llm_url is None,
        chain matches OperatorChain::WithLlm(llm) ==> {
            &&& Some(llm.endpoint) == cfg.scene_llm_url
            &&& llm.model == cfg.scene_llm_model
            &&& llm.gm_speaker_id == cfg.gm_speaker_id
        },
{
    RealPipelineRunner::new(cfg).operators()
}

} // verus!
