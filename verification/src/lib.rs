use vstd::prelude::*;

pub mod text;
pub mod json;
pub mod keyed;
pub mod json_text;
pub mod urls;
pub mod config;
pub mod provider;
pub mod upstream;
pub mod image_io;
pub mod request_scan;
pub mod request_rewrite;
pub mod codec;
pub mod response_rewrite;
pub mod markdown_response;
pub mod blob_runtime;
pub mod crypto;
pub mod upload;
pub mod grsai;
pub mod admin;
pub mod openai_image;
pub mod stream_rewrite;
pub mod response_materialize;
pub mod proxy_flow;
pub mod allocator;
pub mod cache;
pub mod upstream_block_cache;
pub mod request_encode;
pub mod aiapidev_task;

verus! {

/// The configuration of an empty environment (every default), with a test
/// upstream key.
pub fn test_config() -> (r: config::Config)
    ensures
        r.upstream_api_key@ == "test-upstream-key"@,
        exists|c: config::Config|
            config::config_matches(c, Map::<Seq<char>, Seq<char>>::empty()) && r == (config::Config {
                upstream_api_key: r.upstream_api_key,
                ..c
            }),
{
    let env: std::collections::HashMap<String, String> = std::collections::HashMap::new();
    proof {
        vstd::std_specs::hash::lemma_hashmap_deepview_dom(env);
        assert(env.deep_view().dom() =~= Set::<Seq<char>>::empty());
        assert(env.deep_view() =~= Map::<Seq<char>, Seq<char>>::empty());
        reveal_strlit("legacy");
        reveal_strlit("r2");
        reveal_strlit("r2_then_legacy");
        assert(text::lower("legacy"@) =~= "legacy"@);
        assert(config::spec_mode(Map::<Seq<char>, Seq<char>>::empty()) == "legacy"@);
        assert(config::config_error_of(Map::<Seq<char>, Seq<char>>::empty()) is None);
    }
    let base = match config::Config::from_env_map(&env) {
        Ok(c) => c,
        Err(_) => vstd::pervasive::unreached(),
    };
    let ghost c0 = base;
    let mut c = base;
    c.upstream_api_key = text::own("test-upstream-key");
    c
}

} // verus!
