use midi_router::field::{capture_field, parse_field_lhs, Field};
use regex::{Regex, RegexBuilder};

fn field_pattern() -> Regex {
    RegexBuilder::new(
        r"^(?P<type>ch|vel|ctrl)?(?:(?P<wildcard>[*])|(?P<start>-?\d+)-(?P<end>-?\d+)|>(?P<lower_bound>-?\d+)|<(?P<upper_bound>-?\d+)|(?P<exact_value>-?\d+))$",
    )
    .case_insensitive(true)
    .build()
    .unwrap()
}

/// The field that a token stands for, worked out from the groups of the
/// pattern: the slot, the bounds, and whether the bounds are in range.
fn expected_field(pattern: &Regex, token: &str) -> Option<Result<(String, i32, i32), ()>> {
    let captures = pattern.captures(token)?;
    let value_type = captures.name("type").map_or(String::new(), |m| m.as_str().to_lowercase());
    for name in ["start", "end", "lower_bound", "upper_bound", "exact_value"] {
        if let Some(m) = captures.name(name) {
            if m.as_str().parse::<i16>().is_err() {
                return Some(Err(()));
            }
        }
    }
    let number = |name: &str| -> Option<i32> {
        captures.name(name).map(|m| m.as_str().parse::<i16>().unwrap().into())
    };
    let typed = !value_type.is_empty();
    let default_start: i32 = if typed { 0 } else { i16::MIN.into() };
    let default_end: i32 = if typed { 255 } else { i16::MAX.into() };
    let start = number("exact_value")
        .or(number("start"))
        .or(number("lower_bound").map(|b| b + 1))
        .unwrap_or(default_start);
    let end = number("exact_value")
        .or(number("end"))
        .or(number("upper_bound").map(|b| b - 1))
        .unwrap_or(default_end);
    if typed && !(0 <= start && start <= end && end <= 0xff) {
        return Some(Err(()));
    }
    Some(Ok((value_type, start, end)))
}

fn actual_field(token: &str) -> Option<Result<(String, i32, i32), ()>> {
    capture_field(token)?;
    Some(match parse_field_lhs(1, token) {
        Ok(Field::ValueField { start, end }) => Ok((String::new(), start.into(), end.into())),
        Ok(Field::ChannelField { start, end }) => Ok(("ch".to_string(), start.into(), end.into())),
        Ok(Field::VelocityField { start, end }) => {
            Ok(("vel".to_string(), start.into(), end.into()))
        }
        Ok(Field::ControlNoField { start, end }) => {
            Ok(("ctrl".to_string(), start.into(), end.into()))
        }
        Ok(Field::NameField { .. }) => panic!("'{}' unexpectedly gave a name field", token),
        Err(_) => Err(()),
    })
}

fn check_all(alphabet: &[char], length: usize) {
    let pattern = field_pattern();
    let mut indices = vec![0usize; length];
    loop {
        let token: String = indices.iter().map(|i| alphabet[*i]).collect();
        assert_eq!(actual_field(&token), expected_field(&pattern, &token), "'{}'", token);
        let mut position = 0;
        while position < length {
            indices[position] += 1;
            if indices[position] < alphabet.len() {
                break;
            }
            indices[position] = 0;
            position += 1;
        }
        if position == length {
            break;
        }
    }
}

#[test]
fn test_field_grammar_on_every_short_token() {
    let alphabet = ['c', 'h', 'v', 'e', 'l', 't', 'r', 'C', '*', '-', '>', '<', '0', '7', 'x'];
    for length in 0..4 {
        check_all(&alphabet, length);
    }
}

#[test]
fn test_field_grammar_on_every_short_body() {
    let alphabet = ['*', '-', '>', '<', '0', '2', '5', '9', ' '];
    for length in 0..6 {
        check_all(&alphabet, length);
    }
}

#[test]
fn test_field_grammar_on_typed_bodies() {
    let pattern = field_pattern();
    let alphabet = ['*', '-', '>', '<', '0', '2', '5', '6'];
    for prefix in ["ch", "vel", "ctrl", "CH", "vEl", "CTRL", "c", "ve", "ctr", "chh"] {
        for a in alphabet {
            for b in alphabet {
                for c in alphabet {
                    for d in alphabet {
                        let token: String = prefix.chars().chain([a, b, c, d]).collect();
                        assert_eq!(
                            actual_field(&token),
                            expected_field(&pattern, &token),
                            "'{}'",
                            token
                        );
                    }
                }
            }
        }
    }
}
