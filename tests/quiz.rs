use ws_quiz::quiz::{parse_quiz, QuizError};

#[test]
fn quiz_file_is_split_into_questions() {
    let qs = parse_quiz(b"1What is 2+2?\n3\n4\n5\n\n0Sky colour?\nblue\nred").unwrap();
    assert_eq!(qs.len(), 2);
    assert_eq!(qs[0].id, 0);
    assert_eq!(qs[0].correct_answer_index, 1);
    assert_eq!(qs[0].text, b"What is 2+2?\n3\n4\n5".to_vec());
    assert_eq!(qs[1].id, 1);
    assert_eq!(qs[1].correct_answer_index, 0);
    assert_eq!(qs[1].text, b"Sky colour?\nblue\nred".to_vec());
}

#[test]
fn single_question_without_separator() {
    let qs = parse_quiz(b"2Pick\na\nb\nc").unwrap();
    assert_eq!(qs.len(), 1);
    assert_eq!(qs[0].correct_answer_index, 2);
    assert_eq!(qs[0].text, b"Pick\na\nb\nc".to_vec());
}

#[test]
fn trailing_blank_line_is_an_empty_question() {
    assert_eq!(parse_quiz(b"1Q\na\nb\n\n").err(), Some(QuizError::EmptyQuestion));
}

#[test]
fn empty_file_is_an_empty_question() {
    assert_eq!(parse_quiz(b"").err(), Some(QuizError::EmptyQuestion));
}

#[test]
fn three_newlines_keep_one_in_next_block() {
    let qs = parse_quiz(b"1A\n\n\n0B").unwrap();
    assert_eq!(qs.len(), 2);
    assert_eq!(qs[1].correct_answer_index, digit_of(b'\n'));
    assert_eq!(qs[1].text, b"0B".to_vec());
}

fn digit_of(b: u8) -> u8 {
    b.wrapping_sub(b'0')
}

#[test]
fn at_most_256_questions() {
    let mut text = Vec::new();
    for i in 0..256 {
        if i > 0 {
            text.extend_from_slice(b"\n\n");
        }
        text.extend_from_slice(b"0Q");
    }
    let qs = parse_quiz(&text).unwrap();
    assert_eq!(qs.len(), 256);
    assert_eq!(qs[255].id, 255);
    text.extend_from_slice(b"\n\n0Q");
    assert_eq!(parse_quiz(&text).err(), Some(QuizError::TooManyQuestions));
}
