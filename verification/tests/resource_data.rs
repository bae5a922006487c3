use leptos_query::resource_data::is_null;
use leptos_query::ResourceData;

fn decode(text: &str) -> Result<u32, String> {
    text.parse::<u32>().map_err(|e| e.to_string())
}

#[test]
fn empty_and_null_texts_are_no_data() {
    assert!(is_null(""));
    assert!(is_null("null"));
    assert!(!is_null("nul"));
    assert!(!is_null("nulls"));
    assert!(!is_null("Null"));
    assert!(!is_null("ñull"));
    assert_eq!(ResourceData::de_with("", decode), Ok(ResourceData(None)));
    assert_eq!(ResourceData::de_with("null", decode), Ok(ResourceData(None)));
}

#[test]
fn other_texts_are_decoded() {
    assert_eq!(ResourceData::de_with("42", decode), Ok(ResourceData(Some(42))));
    assert!(ResourceData::<u32>::de_with("x", decode).is_err());
}

#[test]
fn no_data_serializes_as_null() {
    let none: ResourceData<u32> = ResourceData(None);
    assert_eq!(none.ser_with(|v| Ok::<String, ()>(v.to_string())), Ok("null".to_string()));
    let some = ResourceData(Some(7u32));
    assert_eq!(some.ser_with(|v| Ok::<String, ()>(v.to_string())), Ok("7".to_string()));
    let round = ResourceData::de_with(&some.ser_with(|v| Ok::<String, ()>(v.to_string())).unwrap(), decode);
    assert_eq!(round, Ok(some));
}
