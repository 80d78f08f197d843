//! The type-name grammar: accepted forms and explicit failures.

use nvim_api::parse_type_name;
use nvim_api::TypeName;
use nvim_api::TypeNameError;

#[test]
fn bare_identifier_is_a_scalar() {
    assert_eq!(
        parse_type_name("Boolean"),
        Ok(TypeName::Scalar("Boolean".to_string()))
    );
    assert_eq!(
        parse_type_name("LuaRef"),
        Ok(TypeName::Scalar("LuaRef".to_string()))
    );
    // the opener itself, unopened, is just letters short of one
    assert_eq!(
        parse_type_name("ArrayOf"),
        Ok(TypeName::Scalar("ArrayOf".to_string()))
    );
}

#[test]
fn dynamic_sequence_form() {
    assert_eq!(
        parse_type_name("ArrayOf(Integer)"),
        Ok(TypeName::DynamicArray("Integer".to_string()))
    );
}

#[test]
fn fixed_sequence_form() {
    assert_eq!(
        parse_type_name("ArrayOf(Buffer, 2)"),
        Ok(TypeName::FixedArray {
            size: 2,
            elem: "Buffer".to_string(),
        })
    );
    assert_eq!(
        parse_type_name("ArrayOf(Integer, 64)"),
        Ok(TypeName::FixedArray {
            size: 64,
            elem: "Integer".to_string(),
        })
    );
}

#[test]
fn unterminated_opener_fails() {
    assert_eq!(parse_type_name("ArrayOf("), Err(TypeNameError::Malformed));
}

#[test]
fn malformed_tokens_fail_explicitly() {
    assert_eq!(parse_type_name(""), Err(TypeNameError::Malformed));
    assert_eq!(parse_type_name("ArrayOf()"), Err(TypeNameError::Malformed));
    assert_eq!(
        parse_type_name("ArrayOf(Integer"),
        Err(TypeNameError::Malformed)
    );
    assert_eq!(
        parse_type_name("ArrayOf(Integer,"),
        Err(TypeNameError::Malformed)
    );
    assert_eq!(
        parse_type_name("ArrayOf(Integer, )"),
        Err(TypeNameError::Malformed)
    );
    assert_eq!(
        parse_type_name("ArrayOf(Integer, 2x)"),
        Err(TypeNameError::Malformed)
    );
    assert_eq!(
        parse_type_name("ArrayOf(Integer, 2) "),
        Err(TypeNameError::Malformed)
    );
    assert_eq!(parse_type_name("foo1"), Err(TypeNameError::Malformed));
    assert_eq!(parse_type_name("a b"), Err(TypeNameError::Malformed));
}

#[test]
fn oversized_size_literal_fails_rather_than_wrapping() {
    assert_eq!(
        parse_type_name("ArrayOf(Integer, 9223372036854775807)"),
        Ok(TypeName::FixedArray {
            size: i64::MAX,
            elem: "Integer".to_string(),
        })
    );
    assert_eq!(
        parse_type_name("ArrayOf(Integer, 9223372036854775808)"),
        Err(TypeNameError::Malformed)
    );
    assert_eq!(
        parse_type_name("ArrayOf(Integer, 99999999999999999999999)"),
        Err(TypeNameError::Malformed)
    );
}

#[test]
fn leading_zeroes_are_decimal() {
    assert_eq!(
        parse_type_name("ArrayOf(Integer, 007)"),
        Ok(TypeName::FixedArray {
            size: 7,
            elem: "Integer".to_string(),
        })
    );
}
