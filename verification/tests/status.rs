use mcping::errors::PingError;
use mcping::json::parse_json;
use mcping::status::status_from_json;

const FULL_STATUS: &str = "{\
\"version\":{\"name\":\"1.21\",\"protocol\":770},\
\"players\":{\"max\":100,\"online\":5,\"sample\":[\
{\"name\":\"alice\",\"id\":\"00000000-0000-0000-0000-000000000001\"},\
{\"name\":\"bob\",\"id\":\"00000000-0000-0000-0000-000000000002\"}]},\
\"description\":{\"text\":\"A\",\"extra\":[{\"text\":\"B\"}]},\
\"favicon\":\"data:image/png;base64,AAAA\"}";

#[test]
fn full_status_document() {
    let tree = parse_json(FULL_STATUS).unwrap();
    let st = status_from_json(tree).unwrap();
    assert_eq!(st.version.name, "1.21");
    assert_eq!(st.version.protocol, 770);
    assert_eq!(st.players.max, 100);
    assert_eq!(st.players.online, 5);
    let sample = st.players.sample.as_ref().unwrap();
    assert_eq!(sample.len(), 2);
    assert_eq!(sample[0].name, "alice");
    assert_eq!(sample[1].id, "00000000-0000-0000-0000-000000000002");
    assert_eq!(st.description, "AB");
    assert_eq!(st.favicon.as_deref(), Some("data:image/png;base64,AAAA"));
}

#[test]
fn optional_fields_may_be_absent() {
    let text = "{\"version\":{\"name\":\"x\",\"protocol\":0},\
\"players\":{\"max\":0,\"online\":0},\
\"description\":\"plain\"}";
    let st = status_from_json(parse_json(text).unwrap()).unwrap();
    assert!(st.players.sample.is_none());
    assert!(st.favicon.is_none());
    assert_eq!(st.description, "plain");
}

#[test]
fn missing_description_is_rejected() {
    let text = "{\"version\":{\"name\":\"x\",\"protocol\":0},\
\"players\":{\"max\":0,\"online\":0}}";
    assert!(matches!(
        status_from_json(parse_json(text).unwrap()),
        Err(PingError::JsonError)
    ));
}

#[test]
fn out_of_range_numbers_are_rejected() {
    let text = "{\"version\":{\"name\":\"x\",\"protocol\":2147483648},\
\"players\":{\"max\":0,\"online\":0},\"description\":\"d\"}";
    assert!(matches!(
        status_from_json(parse_json(text).unwrap()),
        Err(PingError::JsonError)
    ));

    let text2 = "{\"version\":{\"name\":\"x\",\"protocol\":0},\
\"players\":{\"max\":-1,\"online\":0},\"description\":\"d\"}";
    assert!(matches!(
        status_from_json(parse_json(text2).unwrap()),
        Err(PingError::JsonError)
    ));
}

#[test]
fn malformed_sample_is_rejected() {
    let text = "{\"version\":{\"name\":\"x\",\"protocol\":0},\
\"players\":{\"max\":0,\"online\":0,\"sample\":[{\"name\":\"a\"}]},\
\"description\":\"d\"}";
    assert!(matches!(
        status_from_json(parse_json(text).unwrap()),
        Err(PingError::JsonError)
    ));
}

#[test]
fn null_sample_means_no_sample() {
    let text = "{\"version\":{\"name\":\"x\",\"protocol\":0},\
\"players\":{\"max\":0,\"online\":0,\"sample\":null},\
\"description\":\"d\"}";
    let st = status_from_json(parse_json(text).unwrap()).unwrap();
    assert!(st.players.sample.is_none());
}

#[test]
fn non_object_document_is_rejected() {
    assert!(matches!(
        status_from_json(parse_json("[1,2,3]").unwrap()),
        Err(PingError::JsonError)
    ));
}
