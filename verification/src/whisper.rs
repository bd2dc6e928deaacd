//! Settings of the Whisper transcriber.
//!
//! The pipeline owns the transport; the worker chooses the settings. The knobs
//! against hallucinated text are tuned per deployment, so they are set here and
//! not left to the pipeline's defaults.

use vstd::prelude::*;

use crate::config::Config;

verus! {

/// Settings of the transcriber. Fractions are given in thousandths.
pub struct TranscriberConfig {
    pub endpoint: String,
    pub model: String,
    pub language: Option<String>,
    pub initial_prompt: Option<String>,
    pub beam_size: u32,
    pub temperature_millis: Vec<u32>,
    pub hallucination_logprob_threshold_millis: i32,
    pub hallucination_no_speech_threshold_millis: i32,
    pub hallucination_compression_ratio_millis: i32,
}

impl TranscriberConfig {
    /// These are the settings for a worker's configuration.
    pub open spec fn follows(self, cfg: Config) -> bool {
        &&& self.endpoint == cfg.whisper_url
        &&& self.model == cfg.whisper_model
        &&& self.language matches Some(l) && l@ == "en"@
        &&& self.initial_prompt matches Some(p) && p@
            == "TTRPG session dialogue. Multiple speakers discussing combat, exploration, and roleplay."@
        &&& self.beam_size == 5
        &&& self.temperature_millis@ == seq![0u32, 200u32, 400u32]
        &&& self.hallucination_logprob_threshold_millis == -400
        &&& self.hallucination_no_speech_threshold_millis == 500
        &&& self.hallucination_compression_ratio_millis == 1800
    }
}

/// The transcriber's settings for a worker's configuration.
pub fn whisper_config(cfg: &Config) -> (w: TranscriberConfig)
    ensures
        w.follows(*cfg),
        w.endpoint == cfg.whisper_url,
        w.model == cfg.whisper_model,
        w.language matches Some(l) && l@ == "en"@,
        w.initial_prompt matches Some(t) && t@
            == "TTRPG session dialogue. Multiple speakers discussing combat, exploration, and roleplay."@,
        w.beam_size == 5,
        w.temperature_millis@ == seq![0u32, 200u32, 400u32],
        w.hallucination_logprob_threshold_millis == -400,
        w.hallucination_no_speech_threshold_millis == 500,
        w.hallucination_compression_ratio_millis == 1800,
{
    let mut temperature_millis: Vec<u32> = Vec::new();
    temperature_millis.push(0);
    temperature_millis.push(200);
    temperature_millis.push(400);
    assert(temperature_millis@ =~= seq![0u32, 200u32, 400u32]);
    TranscriberConfig {
        endpoint: cfg.whisper_url.clone(),
        model: cfg.whisper_model.clone(),
        language: Some("en".to_owned()),
        initial_prompt: Some(
            "TTRPG session dialogue. Multiple speakers discussing combat, exploration, and roleplay.".to_owned(),
        ),
        beam_size: 5,
        temperature_millis,
        hallucination_logprob_threshold_millis: -400,
        hallucination_no_speech_threshold_millis: 500,
        hallucination_compression_ratio_millis: 1800,
    }
}

} // verus!
