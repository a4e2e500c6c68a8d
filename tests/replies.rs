use lxi::{
    command_frame, decode_reply, remove_newline, FrameFault, LxiHook, LxiTextHook, ReplyDecoder,
    Response, Step,
};

fn feed_all<H: LxiHook>(hook: &mut H, bytes: &[u8]) -> Vec<Step<H::Output>> {
    bytes.iter().map(|b| hook.feed(*b)).collect()
}

// The answers of a test peer that speaks the wire format.
fn emulator_answer(line: &[u8]) -> Vec<u8> {
    if line.starts_with(b"*IDN?") {
        b"Emulator\r\n".to_vec()
    } else if line.starts_with(b"DATA?") {
        b"#14\x00\xff\n\x80\r\n".to_vec()
    } else {
        b"Error\r\n".to_vec()
    }
}

#[test]
fn emulate() {
    let sent = command_frame(b"*IDN?");
    assert_eq!(sent, b"*IDN?\r\n".to_vec());
    let answer = emulator_answer(&sent);
    let (step, used) = decode_reply(&answer);
    assert_eq!(step, Step::Done(Response::Text(Vec::from("Emulator"))));
    assert_eq!(used, answer.len());

    let mut hook = LxiTextHook::start();
    let steps = feed_all(&mut hook, &answer);
    assert_eq!(steps.last(), Some(&Step::Done(Vec::from("Emulator"))));
    assert!(steps[..steps.len() - 1].iter().all(|s| *s == Step::Pending));
}

#[test]
fn data_block_scenario() {
    let sent = command_frame(b"DATA?");
    let answer = emulator_answer(&sent);
    let (step, used) = decode_reply(&answer);
    assert_eq!(step, Step::Done(Response::Binary(vec![0x00, 0xFF, 0x0A, 0x80])));
    assert_eq!(used, answer.len());
}

#[test]
fn unknown_command_answer() {
    let answer = emulator_answer(&command_frame(b"FOO"));
    let (step, _) = decode_reply(&answer);
    assert_eq!(step, Step::Done(Response::Text(Vec::from("Error"))));
}

#[test]
fn malformed_count_byte() {
    let (step, used) = decode_reply(b"#X12345\r\n");
    assert_eq!(step, Step::Failed(FrameFault::CountNotDigit));
    assert_eq!(used, 2);
}

#[test]
fn malformed_length_field() {
    let (step, used) = decode_reply(b"#2a1xyz\r\n");
    assert_eq!(step, Step::Failed(FrameFault::LengthNotDigits));
    assert_eq!(used, 4);
    let (step, _) = decode_reply(b"#2+1x\r\n");
    assert_eq!(step, Step::Failed(FrameFault::LengthNotDigits));
}

#[test]
fn trailing_bytes_after_block() {
    let (step, used) = decode_reply(b"#12abXY\r\nnext");
    assert_eq!(step, Step::Failed(FrameFault::TrailingBytes));
    assert_eq!(used, 9);
    let (step, _) = decode_reply(b"#12ab\r\r\n");
    assert_eq!(step, Step::Failed(FrameFault::TrailingBytes));
}

#[test]
fn echo_reads_back() {
    let payload = b"MEAS:VOLT? 1,2";
    let frame = command_frame(payload);
    let (step, used) = decode_reply(&frame);
    assert_eq!(step, Step::Done(Response::Text(payload.to_vec())));
    assert_eq!(used, payload.len() + 2);
    let (step, _) = decode_reply(&command_frame(b""));
    assert_eq!(step, Step::Done(Response::Text(Vec::new())));
}

#[test]
fn block_reads_back() {
    let payload: Vec<u8> = (0..=255u8).cycle().take(300).collect();
    let mut frame = b"#3300".to_vec();
    frame.extend_from_slice(&payload);
    frame.extend_from_slice(b"\r\n");
    let (step, used) = decode_reply(&frame);
    assert_eq!(step, Step::Done(Response::Binary(payload.clone())));
    assert_eq!(used, frame.len());

    let mut padded = b"#40005".to_vec();
    padded.extend_from_slice(b"\n\r\n\r#");
    padded.push(b'\n');
    let (step, _) = decode_reply(&padded);
    assert_eq!(step, Step::Done(Response::Binary(b"\n\r\n\r#".to_vec())));
}

#[test]
fn strip_exactly_one_level() {
    let (step, _) = decode_reply(b"ab\r\r\n");
    assert_eq!(step, Step::Done(Response::Text(b"ab\r".to_vec())));
    let mut hook = LxiTextHook::new();
    let steps = feed_all(&mut hook, b"ab\r\r\n");
    assert_eq!(steps.last(), Some(&Step::Done(b"ab\r".to_vec())));
}

#[test]
fn empty_line_and_empty_blocks() {
    assert_eq!(decode_reply(b"\n"), (Step::Done(Response::Text(Vec::new())), 1));
    assert_eq!(decode_reply(b"#10\r\n"), (Step::Done(Response::Binary(Vec::new())), 5));
    assert_eq!(decode_reply(b"#0\n"), (Step::Done(Response::Binary(Vec::new())), 3));
}

#[test]
fn incomplete_replies_stay_pending() {
    assert_eq!(decode_reply(b""), (Step::Pending, 0));
    assert_eq!(decode_reply(b"Emul"), (Step::Pending, 4));
    assert_eq!(decode_reply(b"#"), (Step::Pending, 1));
    assert_eq!(decode_reply(b"#14\x00\xff"), (Step::Pending, 5));
    assert_eq!(decode_reply(b"#14\x00\xff\n\x80\r"), (Step::Pending, 8));
}

#[test]
fn only_first_reply_is_taken() {
    let (step, used) = decode_reply(b"one\r\ntwo\r\n");
    assert_eq!(step, Step::Done(Response::Text(b"one".to_vec())));
    assert_eq!(used, 5);
}

#[test]
fn decoder_restarts_after_each_reply() {
    let mut d = ReplyDecoder::new();
    let steps = feed_all(&mut d, b"#X\nok\n#11z\r\n");
    let ends: Vec<&Step<Response>> = steps.iter().filter(|s| **s != Step::Pending).collect();
    assert_eq!(
        ends,
        vec![
            &Step::Failed(FrameFault::CountNotDigit),
            &Step::Done(Response::Text(Vec::new())),
            &Step::Done(Response::Text(b"ok".to_vec())),
            &Step::Done(Response::Binary(b"z".to_vec())),
        ]
    );
}

#[test]
fn text_hook_reads_lines_only() {
    let mut hook = LxiTextHook::new();
    let steps = feed_all(&mut hook, b"#14\r\nx\n");
    let ends: Vec<&Step<Vec<u8>>> = steps.iter().filter(|s| **s != Step::Pending).collect();
    assert_eq!(ends, vec![&Step::Done(b"#14".to_vec()), &Step::Done(b"x".to_vec())]);
}

#[test]
fn remove_newline_cases() {
    let cases: Vec<(&[u8], &[u8])> = vec![
        (b"", b""),
        (b"\n", b""),
        (b"\r\n", b""),
        (b"\r", b"\r"),
        (b"a", b"a"),
        (b"a\n", b"a"),
        (b"a\r\n", b"a"),
        (b"a\n\n", b"a\n"),
        (b"a\r\r\n", b"a\r"),
        (b"a\n\r", b"a\n\r"),
    ];
    for (input, expected) in cases {
        let mut v = input.to_vec();
        remove_newline(&mut v);
        assert_eq!(v, expected.to_vec());
    }
}
