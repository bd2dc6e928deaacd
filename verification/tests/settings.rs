//! Settings that the worker hands to the pipeline.

use chronicle_worker::config::Config;
use chronicle_worker::ids::SessionId;
use chronicle_worker::operators::{build_operators, OperatorChain};
use chronicle_worker::session_runner::{pipeline_config, streaming_config};
use chronicle_worker::whisper::whisper_config;
use chronicle_worker::worker::RealPipelineRunner;

fn config() -> Config {
    Config {
        data_api_url: "http://127.0.0.1:8001".to_string(),
        shared_secret: None,
        legacy_shared_secret: None,
        poll_interval_secs: 10,
        whisper_url: "http://stub/whisper".to_string(),
        whisper_model: "stub".to_string(),
        vad_model_path: "models/silero_vad_v6.onnx".to_string(),
        vad_min_speech_ms: 250,
        vad_min_silence_ms: 800,
        vad_pad_ms: 100,
        admin_enabled: false,
        retry_backoff_ms: "30000,120000,600000".to_string(),
        log_level: "info".to_string(),
        scene_llm_url: None,
        scene_llm_model: "qwen2.5:7b".to_string(),
        gm_speaker_id: Some("gm".to_string()),
    }
}

#[test]
fn whisper_settings() {
    let w = whisper_config(&config());
    assert_eq!((w.endpoint.as_str(), w.model.as_str()), ("http://stub/whisper", "stub"));
    assert_eq!(w.language.as_deref(), Some("en"));
    assert_eq!(
        w.initial_prompt.as_deref(),
        Some("TTRPG session dialogue. Multiple speakers discussing combat, exploration, and roleplay.")
    );
    assert_eq!(w.beam_size, 5);
    assert_eq!(w.temperature_millis, vec![0, 200, 400]);
    assert_eq!(w.hallucination_logprob_threshold_millis, -400);
    assert_eq!(w.hallucination_no_speech_threshold_millis, 500);
    assert_eq!(w.hallucination_compression_ratio_millis, 1800);
}

#[test]
fn pipeline_settings() {
    let s = streaming_config(&config(), SessionId(6));
    assert_eq!(s.session_id, SessionId(6));
    assert_eq!(s.input_sample_rate, 48_000);
    assert_eq!(s.vad_model_path, "models/silero_vad_v6.onnx");
    assert_eq!(s.whisper.model, "stub");
    let p = pipeline_config(&config());
    assert_eq!(p.vad_model_path, "models/silero_vad_v6.onnx");
    assert_eq!(p.whisper.endpoint, "http://stub/whisper");
}

#[test]
fn language_model_is_used_where_it_is_configured() {
    let mut cfg = config();
    assert!(matches!(build_operators(&cfg), OperatorChain::Standard));
    cfg.scene_llm_url = Some("http://llm".to_string());
    match build_operators(&cfg) {
        OperatorChain::WithLlm(llm) => {
            assert_eq!((llm.endpoint.as_str(), llm.model.as_str()), ("http://llm", "qwen2.5:7b"));
            assert_eq!(llm.gm_speaker_id.as_deref(), Some("gm"));
        }
        OperatorChain::Standard => panic!("the language model is configured"),
    }
    let runner = RealPipelineRunner::new(&cfg);
    assert_eq!(runner.scene_llm_url.as_deref(), Some("http://llm"));
}
