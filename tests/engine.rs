use ws_quiz::engine::{farewell_frame, AnswerOutcome, RoundEngine, RoundState};
use ws_quiz::frame::{encode_text_frame, mask_frame};
use ws_quiz::quiz::{parse_client_message, question_frame, ClientMessage, Question};
use ws_quiz::registry::ClientStatus;

fn answer(question: u8, choice: u8) -> Vec<u8> {
    let frame = encode_text_frame(&[b'0' + question, b'0' + choice]);
    mask_frame(&frame, &[0x5a, 0x01, 0xc3, 0x7e]).unwrap()
}

fn quiz() -> Vec<Question> {
    vec![
        Question { id: 0, correct_answer_index: 1, text: b"2+2?\n3\n4\n5".to_vec() },
        Question { id: 1, correct_answer_index: 0, text: b"Sky?\nblue\nred".to_vec() },
    ]
}

fn broadcast(e: &mut RoundEngine, now: u64) -> Vec<usize> {
    let (targets, _frame) = e.pending_broadcast().unwrap();
    for &id in &targets {
        e.mark_delivered(id);
    }
    e.begin_collecting(now);
    targets
}

#[test]
fn three_clients_two_questions_scores() {
    let mut e = RoundEngine::new(quiz(), 5000);
    let a = e.register();
    let b = e.register();
    let c = e.register();
    e.start();
    assert_eq!(e.round_state(), RoundState::Broadcasting(0));
    assert_eq!(broadcast(&mut e, 0), vec![a, b, c]);
    assert_eq!(e.round_state(), RoundState::CollectingAnswers(0, 5000));
    assert_eq!(e.receive_answer(a, &answer(0, 1), 100), AnswerOutcome::Correct);
    assert_eq!(e.receive_answer(b, &answer(0, 1), 200), AnswerOutcome::Correct);
    assert!(!e.advance(4999));
    assert!(e.advance(5000));
    assert_eq!(e.round_state(), RoundState::Broadcasting(1));
    broadcast(&mut e, 6000);
    assert_eq!(e.receive_answer(a, &answer(1, 0), 6100), AnswerOutcome::Correct);
    assert_eq!(e.receive_answer(b, &answer(1, 2), 6200), AnswerOutcome::Incorrect);
    assert!(e.advance(11_000));
    assert_eq!(e.round_state(), RoundState::Finished);
    assert_eq!(e.final_scores(), vec![(a, 2), (b, 1), (c, 0)]);
}

#[test]
fn answer_to_other_question_is_ignored() {
    let mut e = RoundEngine::new(quiz(), 5000);
    let a = e.register();
    e.start();
    broadcast(&mut e, 0);
    assert_eq!(e.receive_answer(a, &answer(1, 1), 10), AnswerOutcome::Ignored);
    assert_eq!(e.client(a).score, 0);
    assert!(e.client(a).awaiting);
    assert_eq!(e.round_state(), RoundState::CollectingAnswers(0, 5000));
    // the client may still answer the open question
    assert_eq!(e.receive_answer(a, &answer(0, 1), 20), AnswerOutcome::Correct);
    assert_eq!(e.client(a).score, 1);
}

#[test]
fn only_first_answer_counts() {
    let mut e = RoundEngine::new(quiz(), 5000);
    let a = e.register();
    e.start();
    broadcast(&mut e, 0);
    assert_eq!(e.receive_answer(a, &answer(0, 2), 10), AnswerOutcome::Incorrect);
    assert_eq!(e.receive_answer(a, &answer(0, 1), 20), AnswerOutcome::Ignored);
    assert_eq!(e.client(a).score, 0);
}

#[test]
fn late_answer_is_ignored() {
    let mut e = RoundEngine::new(quiz(), 5000);
    let a = e.register();
    e.start();
    broadcast(&mut e, 1000);
    assert_eq!(e.receive_answer(a, &answer(0, 1), 6001), AnswerOutcome::Ignored);
    assert_eq!(e.client(a).score, 0);
}

#[test]
fn dropped_client_does_not_stop_the_round() {
    let mut e = RoundEngine::new(quiz(), 5000);
    let a = e.register();
    let b = e.register();
    let c = e.register();
    e.start();
    let (targets, _) = e.pending_broadcast().unwrap();
    assert_eq!(targets, vec![a, b, c]);
    e.mark_delivered(a);
    e.mark_dropped(b); // the write to b failed
    e.mark_delivered(c);
    e.begin_collecting(0);
    assert_eq!(e.receive_answer(a, &answer(0, 1), 10), AnswerOutcome::Correct);
    assert_eq!(e.receive_answer(b, &answer(0, 1), 10), AnswerOutcome::Ignored);
    assert!(e.advance(5000));
    let (targets, _) = e.pending_broadcast().unwrap();
    assert_eq!(targets, vec![a, c]);
    broadcast(&mut e, 5000);
    assert!(e.advance(10_000));
    assert_eq!(e.round_state(), RoundState::Finished);
    assert_eq!(e.final_scores(), vec![(a, 1), (c, 0)]);
}

#[test]
fn close_frame_disconnects_client() {
    let mut e = RoundEngine::new(quiz(), 5000);
    let a = e.register();
    e.start();
    broadcast(&mut e, 0);
    let close = mask_frame(&[0x88, 0x00], &[9, 9, 9, 9]).unwrap();
    assert_eq!(e.receive_answer(a, &close, 10), AnswerOutcome::Disconnected);
    assert_eq!(e.client(a).status, ClientStatus::Dropped);
    assert!(e.final_scores().is_empty());
}

#[test]
fn close_all_twice_sends_farewell_once() {
    let mut e = RoundEngine::new(quiz(), 5000);
    let a = e.register();
    let b = e.register();
    let c = e.register();
    e.mark_dropped(b);
    assert_eq!(e.close_all(), vec![a, c]);
    assert_eq!(e.close_all(), Vec::<usize>::new());
    assert_eq!(e.client(a).status, ClientStatus::Closed);
    assert_eq!(e.final_scores(), vec![(a, 0), (c, 0)]);
}

#[test]
fn latecomer_waits_for_next_question() {
    let mut e = RoundEngine::new(quiz(), 5000);
    let a = e.register();
    e.start();
    broadcast(&mut e, 0);
    let late = e.register();
    assert_eq!(e.receive_answer(late, &answer(0, 1), 10), AnswerOutcome::Ignored);
    assert!(e.advance(5000));
    assert_eq!(broadcast(&mut e, 5000), vec![a, late]);
    assert_eq!(e.receive_answer(late, &answer(1, 0), 5010), AnswerOutcome::Correct);
}

#[test]
fn start_without_questions_finishes() {
    let mut e = RoundEngine::new(Vec::new(), 5000);
    e.start();
    assert_eq!(e.round_state(), RoundState::Finished);
    assert!(e.pending_broadcast().is_none());
}

#[test]
fn start_only_once() {
    let mut e = RoundEngine::new(quiz(), 5000);
    e.start();
    broadcast(&mut e, 0);
    e.start();
    assert_eq!(e.round_state(), RoundState::CollectingAnswers(0, 5000));
}

#[test]
fn deadline_saturates() {
    let mut e = RoundEngine::new(quiz(), 5000);
    e.start();
    e.begin_collecting(u64::MAX - 1);
    assert_eq!(e.round_state(), RoundState::CollectingAnswers(0, u64::MAX));
}

#[test]
fn farewell_bytes() {
    assert_eq!(farewell_frame(), b"\x81\x24Game Finished! Closing Connection...".to_vec());
}

#[test]
fn question_frame_bytes() {
    let q = Question { id: 3, correct_answer_index: 0, text: b"Q?\nA\nB".to_vec() };
    let f = question_frame(&q);
    assert_eq!(f, b"\x81\x08\x33\nQ?\nA\nB".to_vec());
}

#[test]
fn client_messages() {
    assert_eq!(parse_client_message(&answer(4, 2)), ClientMessage::Answer(4, 2));
    assert_eq!(parse_client_message(&[0x88, 0x80, 0, 0, 0, 0]), ClientMessage::Close);
    assert_eq!(parse_client_message(&[0x81]), ClientMessage::Invalid);
    let three = mask_frame(&encode_text_frame(b"123"), &[1, 2, 3, 4]).unwrap();
    assert_eq!(parse_client_message(&three), ClientMessage::Invalid);
}
