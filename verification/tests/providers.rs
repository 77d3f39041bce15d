use fisher::errors::ErrorKind;
use fisher::kvmap::KvMap;
use fisher::providers::{HookProvider, Provider, ProviderKind, Providers};
use fisher::request::{Request, RequestType};
use fisher::testing::dummy_request;

fn sample_provider() -> Provider {
    Provider::new("Sample".to_string(), ProviderKind::Testing)
}

#[test]
fn test_providers() {
    // Create a new instance of Providers
    let mut providers = Providers::new();

    // Add a dummy provider
    providers.add("Sample", sample_provider());

    // You should be able to get a provider if it exists
    assert!(providers.by_name("Sample").is_ok());

    // But if it doesn't exists you should get an error
    assert!(providers.by_name("Not-Exists").is_err());
}

#[test]
fn test_provider() {
    // Create a dummy provider
    let provider = sample_provider();

    let request = dummy_request();

    // You should be able to call the configuration checker
    assert!(provider.check_config("yes").is_ok());

    // You should be able to call the request type checker
    assert_eq!(
        provider.request_type(&request, "yes"),
        RequestType::ExecuteHook
    );

    // You should be able to call the request validator
    assert!(provider.validate(&request, "yes"));

    // You should be able to call the environment creator
    assert!(provider.env(&request, "").is_empty());
}

#[test]
fn test_hook_provider() {
    // Create a dummy provider
    let provider = sample_provider();

    let request = dummy_request();

    // Try to ceate an hook provider with an invalid config
    let provider_res = HookProvider::new(provider.clone(), "FAIL".to_string());
    assert!(provider_res.is_err());

    // Create an hook provider with a valid config
    let provider_res = HookProvider::new(provider.clone(), "yes".to_string());
    assert!(provider_res.is_ok());

    let provider = match provider_res {
        Ok(p) => p,
        Err(_) => unreachable!(),
    };

    // You should be able to call the request type checker
    assert_eq!(provider.request_type(&request), RequestType::ExecuteHook);

    // You should be able to call the request validator
    assert!(provider.validate(&request));

    // You should be able to call the environment creator
    assert!(provider.env(&request).is_empty());
}

#[test]
fn provider_not_found_kind() {
    let providers = Providers::new();
    let err = match providers.by_name("nobody") {
        Err(e) => e,
        Ok(_) => unreachable!(),
    };
    assert!(matches!(err.kind(), ErrorKind::ProviderNotFound(_)));
}

#[test]
fn provider_ping_classification() {
    let provider = sample_provider();
    let mut request: Request = dummy_request();
    request
        .params
        .insert("request_type".to_string(), "ping".to_string());
    assert_eq!(provider.request_type(&request, ""), RequestType::Ping);
}

#[test]
fn provider_secret_validation() {
    let provider = sample_provider();

    let mut good: Request = dummy_request();
    good.params
        .insert("secret".to_string(), "testing".to_string());
    assert!(provider.validate(&good, ""));

    let mut bad: Request = dummy_request();
    bad.params.insert("secret".to_string(), "wrong".to_string());
    assert!(!provider.validate(&bad, ""));
}

#[test]
fn kvmap_lookup_and_shadowing() {
    let mut m = KvMap::new();
    assert!(m.is_empty());
    m.insert("a".to_string(), "1".to_string());
    m.insert("b".to_string(), "2".to_string());
    m.insert("a".to_string(), "3".to_string());
    assert_eq!(m.get(&"a".to_string()).unwrap().as_str(), "3");
    assert_eq!(m.get(&"b".to_string()).unwrap().as_str(), "2");
    assert!(m.get(&"c".to_string()).is_none());
    assert!(!m.is_empty());
    assert!(m.contains_key(&"a".to_string()));
}

#[test]
fn kvmap_merge_prefers_later() {
    let mut base = KvMap::new();
    base.insert("FOO".to_string(), "process".to_string());
    base.insert("BAR".to_string(), "process".to_string());
    let mut over = KvMap::new();
    over.insert("FOO".to_string(), "operator".to_string());
    base.append_all(&over);
    assert_eq!(base.get(&"FOO".to_string()).unwrap().as_str(), "operator");
    assert_eq!(base.get(&"BAR".to_string()).unwrap().as_str(), "process");
}
