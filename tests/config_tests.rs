use escli::config::{lines_of, setting_of, Credential, Endpoint};
use escli::error::ErrorType;

fn some(s: &str) -> Option<String> {
    Some(s.to_string())
}

#[test]
fn api_key_wins_over_user_and_password() {
    let e = Endpoint::from_env_vars(some("http://localhost:9200"), some("KEY"), some("bob"), some("pw")).unwrap();
    assert_eq!(e.url, "http://localhost:9200/");
    match e.credential {
        Credential::EncodedApiKey(k) => assert_eq!(k, "KEY"),
        Credential::Basic(_, _) => panic!("the API key should win"),
    }
}

#[test]
fn password_alone_gives_basic_auth_with_default_user() {
    let e = Endpoint::from_env_vars(some("https://es.example.com:9243"), None, None, some("pw")).unwrap();
    assert_eq!(e.url, "https://es.example.com:9243/");
    match e.credential {
        Credential::Basic(u, p) => {
            assert_eq!(u, "elastic");
            assert_eq!(p, "pw");
        }
        Credential::EncodedApiKey(_) => panic!("no API key was given"),
    }
}

#[test]
fn user_name_is_taken_when_given() {
    let e = Endpoint::from_env_vars(some("http://h:1"), None, some("bob"), some("pw")).unwrap();
    match e.credential {
        Credential::Basic(u, _) => assert_eq!(u, "bob"),
        Credential::EncodedApiKey(_) => panic!("no API key was given"),
    }
}

#[test]
fn environment_without_url_or_credentials_fails() {
    let no_url = Endpoint::from_env_vars(None, some("KEY"), None, None);
    assert_eq!(no_url.err().unwrap().subtype, ErrorType::ConfigurationError);
    let bad_url = Endpoint::from_env_vars(some("not a url"), some("KEY"), None, None);
    assert_eq!(bad_url.err().unwrap().subtype, ErrorType::ConfigurationError);
    let no_secret = Endpoint::from_env_vars(some("http://localhost:9200"), None, some("bob"), None);
    assert_eq!(no_secret.err().unwrap().subtype, ErrorType::ConfigurationError);
}

#[test]
fn settings_text_gives_local_url_and_key() {
    let text = "ES_LOCAL_VERSION=8.15\nES_LOCAL_PORT=9201\nES_LOCAL_API_KEY=abc==\n";
    let e = Endpoint::for_start_local(text).unwrap();
    assert_eq!(e.url, "http://localhost:9201/");
    match e.credential {
        Credential::EncodedApiKey(k) => assert_eq!(k, "abc=="),
        Credential::Basic(_, _) => panic!("settings give an API key"),
    }
}

#[test]
fn settings_text_port_defaults_to_9200() {
    let e = Endpoint::for_start_local("ES_LOCAL_API_KEY=k").unwrap();
    assert_eq!(e.url, "http://localhost:9200/");
}

#[test]
fn settings_text_without_api_key_fails_even_with_good_url() {
    let r = Endpoint::for_start_local("ES_LOCAL_PORT=9200\nES_LOCAL_PASSWORD=pw\n");
    let e = r.err().unwrap();
    assert_eq!(e.subtype, ErrorType::ConfigurationError);
    assert_eq!(e.describe(), "ConfigurationError: could not find ES_LOCAL_API_KEY in start-local .env file");
}

#[test]
fn settings_text_with_bad_port_fails() {
    let r = Endpoint::for_start_local("ES_LOCAL_PORT=notaport\nES_LOCAL_API_KEY=k\n");
    assert_eq!(r.err().unwrap().subtype, ErrorType::ConfigurationError);
}

#[test]
fn settings_lines_split_like_str_lines() {
    assert_eq!(lines_of("a=1\r\nb=2\n\nc"), vec!["a=1".to_string(), "b=2".to_string(), String::new(), "c".to_string()]);
    assert_eq!(lines_of(""), Vec::<String>::new());
    assert_eq!(lines_of("x\n"), vec!["x".to_string()]);
}

#[test]
fn last_assignment_wins_and_first_equals_splits() {
    assert_eq!(setting_of("K=1\nJUNK\nK=2=3\n", "K"), Some("2=3".to_string()));
    assert_eq!(setting_of("KK=1\n", "K"), None);
    assert_eq!(setting_of("K=\n", "K"), Some(String::new()));
}

#[test]
fn resolution_falls_back_through_sources() {
    let from_nested = Endpoint::resolve(None, None, None, None, some("ES_LOCAL_PORT=1\n"), some("ES_LOCAL_API_KEY=n\n")).unwrap();
    assert_eq!(from_nested.url, "http://localhost:9200/");
    let from_local = Endpoint::resolve(None, None, None, None, some("ES_LOCAL_API_KEY=l\n"), some("ES_LOCAL_API_KEY=n\n")).unwrap();
    match from_local.credential {
        Credential::EncodedApiKey(k) => assert_eq!(k, "l"),
        Credential::Basic(_, _) => panic!("local settings give an API key"),
    }
    let from_env = Endpoint::resolve(some("http://e:1"), some("e"), None, None, some("ES_LOCAL_API_KEY=l\n"), None).unwrap();
    assert_eq!(from_env.url, "http://e:1/");
}

#[test]
fn resolution_fails_with_one_configuration_error() {
    let e = Endpoint::resolve(None, None, None, None, some("ES_LOCAL_PORT=9200\n"), None).err().unwrap();
    assert_eq!(e.subtype, ErrorType::ConfigurationError);
    assert_eq!(
        e.description,
        "failed to initialise client from either environment variables or start-local .env file"
    );
}
