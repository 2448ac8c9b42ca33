use hi_tension::outbox::Outbox;
use hi_tension::wire::encode_words;
use hi_tension::{
    hidelimiter, hiread, hiwrite, Action, Emitter, Event, Failure, Framer, Handshake, ACK,
    SENTINEL,
};

const TERMINATOR: [u8; 8] = [0x5b, 0xa0, 0x00, 0x04, 0x10, 0x00, 0xf8, 0x7f];

fn bits(values: &[f64]) -> Vec<u64> {
    values.iter().map(|value| value.to_bits()).collect()
}

/// Emits `words` onto `wire` through a stream that accepts at most `limit`
/// bytes per write.
fn emit(wire: &mut Vec<u8>, words: &[u64], limit: usize) {
    let mut emitter = Emitter::new(words);
    let mut action = emitter.action();
    while action == Action::Write {
        let count = emitter.pending().len().min(limit);
        wire.extend_from_slice(&emitter.pending()[..count]);
        action = hiwrite(&mut emitter, Event::Wrote(count));
    }
    assert_eq!(action, Action::Done);
}

/// Takes a handshake up to the wait for the acknowledgment, through a
/// stream that accepts at most `limit` bytes per write.
fn delimit(wire: &mut Vec<u8>, limit: usize) -> Handshake {
    let mut handshake = Handshake::new();
    let mut action = handshake.action();
    while action == Action::Write {
        let count = handshake.pending().len().min(limit);
        wire.extend_from_slice(&handshake.pending()[..count]);
        action = hidelimiter(&mut handshake, Event::Wrote(count));
    }
    assert_eq!(action, Action::Flush);
    assert_eq!(hidelimiter(&mut handshake, Event::Flushed), Action::Read);
    handshake
}

/// What the receiving end of a stream saw happen.
struct Reception {
    framer: Framer,
    outcome: Action,
    consumed: usize,
    replied: Vec<u8>,
    flushes: usize,
}

/// Frames one message off `wire` with a buffer of `words` words, through a
/// stream that returns at most `limit` bytes per read and ends where `wire`
/// ends.
fn receive(wire: &[u8], words: usize, limit: usize) -> Reception {
    let mut framer = Framer::new(words);
    let mut consumed = 0;
    let mut replied = Vec::new();
    let mut flushes = 0;
    let mut action = framer.action();
    loop {
        match action {
            Action::Read => {
                let count = framer.room().min(limit).min(wire.len() - consumed);
                let chunk = &wire[consumed..consumed + count];
                consumed += count;
                action = hiread(&mut framer, Event::Read(chunk));
            }
            Action::Write => {
                replied.extend_from_slice(framer.pending());
                let count = framer.pending().len();
                action = hiread(&mut framer, Event::Wrote(count));
            }
            Action::Flush => {
                flushes += 1;
                action = hiread(&mut framer, Event::Flushed);
            }
            outcome => return Reception { framer, outcome, consumed, replied, flushes },
        }
    }
}

fn message(words: &[u64]) -> Vec<u8> {
    let mut wire = encode_words(words);
    wire.extend_from_slice(&TERMINATOR);
    wire
}

#[test]
fn two_chunks_and_a_handshake_arrive_as_one_array() {
    let mut wire = Vec::new();
    emit(&mut wire, &bits(&[1.5]), usize::MAX);
    emit(&mut wire, &bits(&[-0.0, 3.4e10]), usize::MAX);
    let mut handshake = delimit(&mut wire, usize::MAX);
    assert_eq!(handshake.action(), Action::Read);

    let reception = receive(&wire, 16, usize::MAX);
    assert_eq!(reception.outcome, Action::Done);
    let words = reception.framer.message().unwrap();
    let values: Vec<f64> = words.iter().map(|word| f64::from_bits(*word)).collect();
    assert_eq!(values, vec![1.5, -0.0, 3.4e10]);
    assert_eq!(words, bits(&[1.5, -0.0, 3.4e10]));
    assert!(values[1].is_sign_negative());
    assert_eq!(reception.consumed, wire.len());
    assert_eq!(reception.replied, vec![ACK]);

    assert_eq!(handshake.action(), Action::Read);
    assert_eq!(hidelimiter(&mut handshake, Event::Read(&reception.replied)), Action::Done);
}

#[test]
fn the_wire_is_payload_then_terminator() {
    let mut wire = Vec::new();
    emit(&mut wire, &bits(&[1.5, -0.0, 3.4e10]), 5);
    delimit(&mut wire, 3);
    let mut expected = Vec::new();
    expected.extend_from_slice(&1.5f64.to_le_bytes());
    expected.extend_from_slice(&(-0.0f64).to_le_bytes());
    expected.extend_from_slice(&3.4e10f64.to_le_bytes());
    expected.extend_from_slice(&TERMINATOR);
    assert_eq!(wire, expected);
    assert_eq!(wire.len(), 8 * 3 + 8);
}

#[test]
fn round_trip_keeps_every_bit() {
    let values = [
        0.0,
        -0.0,
        1.0,
        -1.0,
        f64::MIN_POSITIVE,
        f64::MIN_POSITIVE / 4.0,
        f64::from_bits(1),
        f64::MAX,
        f64::MIN,
        f64::INFINITY,
        f64::NEG_INFINITY,
        f64::NAN,
        f64::from_bits(0x7ff0_0000_0000_0001),
        f64::from_bits(0xfff8_dead_beef_0001),
        f64::from_bits(SENTINEL + 1),
        f64::from_bits(SENTINEL - 1),
    ];
    let sent = bits(&values);
    for limit in [1, 2, 3, 7, 8, 9, 64, usize::MAX] {
        let mut wire = Vec::new();
        emit(&mut wire, &sent, limit);
        delimit(&mut wire, limit);
        for read in [1, 5, 8, 13, usize::MAX] {
            let reception = receive(&wire, 4, read);
            assert_eq!(reception.outcome, Action::Done);
            assert_eq!(reception.framer.message(), Some(sent.clone()));
            assert_eq!(reception.replied, vec![ACK]);
            assert_eq!(reception.flushes, 1);
        }
    }
}

#[test]
fn all_zero_array_round_trips() {
    let sent = vec![0u64; 300];
    let reception = receive(&message(&sent), 8, 100);
    assert_eq!(reception.framer.message(), Some(sent));
}

#[test]
fn empty_message_is_an_empty_array_and_is_acknowledged() {
    let mut wire = Vec::new();
    emit(&mut wire, &[], usize::MAX);
    let mut handshake = delimit(&mut wire, usize::MAX);
    assert_eq!(wire, TERMINATOR.to_vec());
    for read in [1, 3, 8] {
        let reception = receive(&wire, 1, read);
        assert_eq!(reception.outcome, Action::Done);
        assert_eq!(reception.framer.message(), Some(Vec::new()));
        assert_eq!(reception.replied, vec![ACK]);
        assert_eq!(reception.flushes, 1);
    }
    assert_eq!(hidelimiter(&mut handshake, Event::Read(&[ACK])), Action::Done);
}

#[test]
fn emitter_of_nothing_asks_for_nothing() {
    let emitter = Emitter::new(&[]);
    assert_eq!(emitter.action(), Action::Done);
    assert_eq!(emitter.pending(), &[] as &[u8]);
}

#[test]
fn chunked_emission_puts_the_same_bytes_on_the_stream() {
    let whole: Vec<u64> = (0..20u64).map(|k| (k as f64 * 0.37 - 3.0).to_bits()).collect();
    let mut reference = Vec::new();
    emit(&mut reference, &whole, usize::MAX);
    delimit(&mut reference, usize::MAX);

    for cuts in [vec![1], vec![10], vec![19], vec![3, 4, 9], vec![1, 2, 3, 4, 5, 6, 7]] {
        let mut wire = Vec::new();
        let mut from = 0;
        for cut in cuts {
            emit(&mut wire, &whole[from..cut], 11);
            from = cut;
        }
        emit(&mut wire, &whole[from..], 11);
        delimit(&mut wire, 5);
        assert_eq!(wire, reference);
        assert_eq!(receive(&wire, 2, 9).framer.message(), Some(whole.clone()));
    }
}

#[test]
fn emitter_tolerates_partial_and_empty_writes() {
    let words = bits(&[2.5, 7.25]);
    let mut emitter = Emitter::new(&words);
    assert_eq!(emitter.action(), Action::Write);
    assert_eq!(emitter.pending(), &encode_words(&words)[..]);
    assert_eq!(hiwrite(&mut emitter, Event::Wrote(0)), Action::Write);
    assert_eq!(emitter.pending().len(), 16);
    assert_eq!(hiwrite(&mut emitter, Event::Wrote(5)), Action::Write);
    assert_eq!(emitter.pending(), &encode_words(&words)[5..]);
    assert_eq!(hiwrite(&mut emitter, Event::Wrote(10)), Action::Write);
    assert_eq!(emitter.pending(), &encode_words(&words)[15..]);
    assert_eq!(hiwrite(&mut emitter, Event::Wrote(1)), Action::Done);
    assert_eq!(emitter.pending(), &[] as &[u8]);
}

#[test]
fn emitter_ignores_what_it_did_not_ask_for() {
    let mut emitter = Emitter::new(&[1]);
    assert_eq!(hiwrite(&mut emitter, Event::Flushed), Action::Write);
    assert_eq!(hiwrite(&mut emitter, Event::Read(&[1, 2, 3])), Action::Write);
    assert_eq!(emitter.pending().len(), 8);
    assert_eq!(hiwrite(&mut emitter, Event::Wrote(8)), Action::Done);
    assert_eq!(hiwrite(&mut emitter, Event::Wrote(3)), Action::Done);
    assert_eq!(hiwrite(&mut emitter, Event::Failed), Action::Done);
}

#[test]
fn emitter_gives_up_on_a_failed_write() {
    let mut emitter = Emitter::new(&[1, 2]);
    assert_eq!(hiwrite(&mut emitter, Event::Wrote(3)), Action::Write);
    assert_eq!(hiwrite(&mut emitter, Event::Failed), Action::Fail(Failure::Transport));
    assert_eq!(hiwrite(&mut emitter, Event::Wrote(13)), Action::Fail(Failure::Transport));
    assert_eq!(emitter.action(), Action::Fail(Failure::Transport));
}

#[test]
fn buffer_doubles_until_the_message_fits() {
    let sent: Vec<u64> = (0..5u64).map(|k| (k as f64).to_bits()).collect();
    let wire = message(&sent);
    assert_eq!(wire.len(), 48);
    for read in [1, 8, 11, usize::MAX] {
        let reception = receive(&wire, 1, read);
        assert_eq!(reception.framer.message(), Some(sent.clone()));
        assert_eq!(reception.framer.capacity(), 64);
    }
}

#[test]
fn buffer_that_fits_is_not_doubled() {
    let sent = bits(&[1.0, 2.0, 3.0]);
    let reception = receive(&message(&sent), 4, usize::MAX);
    assert_eq!(reception.framer.message(), Some(sent));
    assert_eq!(reception.framer.capacity(), 32);
}

#[test]
fn full_buffer_without_terminator_doubles_at_once() {
    let mut framer = Framer::new(1);
    assert_eq!(framer.capacity(), 8);
    assert_eq!(framer.room(), 8);
    assert_eq!(hiread(&mut framer, Event::Read(&[0; 8])), Action::Read);
    assert_eq!(framer.capacity(), 16);
    assert_eq!(framer.room(), 8);
    assert_eq!(hiread(&mut framer, Event::Read(&[0; 8])), Action::Read);
    assert_eq!(framer.capacity(), 32);
    assert_eq!(framer.room(), 16);
    assert_eq!(hiread(&mut framer, Event::Read(&[0; 3])), Action::Read);
    assert_eq!(framer.capacity(), 32);
    assert_eq!(framer.room(), 13);
}

#[test]
fn content_does_not_depend_on_the_first_size() {
    let sent: Vec<u64> = (0..100u64).map(|k| (1.0 / (k as f64 + 1.0)).to_bits()).collect();
    let wire = message(&sent);
    let mut sizes = Vec::new();
    for words in [1, 2, 3, 50, 101, 1000] {
        let reception = receive(&wire, words, 17);
        assert_eq!(reception.framer.message(), Some(sent.clone()));
        sizes.push(reception.framer.capacity());
    }
    assert_eq!(sizes, vec![1024, 1024, 1536, 1600, 808, 8000]);
}

#[test]
fn reads_shorter_than_a_word_are_gathered() {
    let mut framer = Framer::new(2);
    assert_eq!(hiread(&mut framer, Event::Read(&TERMINATOR[..3])), Action::Read);
    assert_eq!(framer.room(), 13);
    assert_eq!(hiread(&mut framer, Event::Read(&TERMINATOR[3..7])), Action::Read);
    assert_eq!(framer.message(), None);
    assert_eq!(hiread(&mut framer, Event::Read(&TERMINATOR[7..])), Action::Write);
    assert_eq!(framer.pending(), &[ACK]);
}

#[test]
fn message_is_withheld_until_the_acknowledgment_is_out() {
    let wire = message(&bits(&[4.0]));
    let mut framer = Framer::new(8);
    assert_eq!(framer.message(), None);
    assert_eq!(hiread(&mut framer, Event::Read(&wire)), Action::Write);
    assert_eq!(framer.message(), None);
    assert_eq!(hiread(&mut framer, Event::Wrote(0)), Action::Write);
    assert_eq!(framer.pending(), &[ACK]);
    assert_eq!(hiread(&mut framer, Event::Wrote(1)), Action::Flush);
    assert_eq!(framer.pending(), &[] as &[u8]);
    assert_eq!(framer.message(), None);
    assert_eq!(hiread(&mut framer, Event::Flushed), Action::Done);
    assert_eq!(framer.message(), Some(bits(&[4.0])));
    assert_eq!(hiread(&mut framer, Event::Read(&[1, 2])), Action::Done);
    assert_eq!(framer.message(), Some(bits(&[4.0])));
}

#[test]
fn stream_that_ends_early_leaves_the_message_incomplete() {
    let wire = message(&bits(&[1.0, 2.0, 3.0]));
    for kept in [0, 1, 8, 20, 24, 31] {
        let reception = receive(&wire[..kept], 2, 5);
        assert_eq!(reception.outcome, Action::Fail(Failure::Incomplete));
        assert_eq!(reception.framer.message(), None);
        assert_eq!(reception.replied, Vec::<u8>::new());
        assert_eq!(reception.flushes, 0);
    }
}

#[test]
fn framer_gives_up_on_a_failed_transfer() {
    let mut framer = Framer::new(4);
    assert_eq!(hiread(&mut framer, Event::Read(&[1, 2, 3])), Action::Read);
    assert_eq!(hiread(&mut framer, Event::Failed), Action::Fail(Failure::Transport));
    assert_eq!(hiread(&mut framer, Event::Read(&TERMINATOR)), Action::Fail(Failure::Transport));
    assert_eq!(framer.message(), None);

    let mut framer = Framer::new(4);
    assert_eq!(hiread(&mut framer, Event::Read(&TERMINATOR)), Action::Write);
    assert_eq!(hiread(&mut framer, Event::Failed), Action::Fail(Failure::Transport));
    assert_eq!(framer.message(), None);

    let mut framer = Framer::new(4);
    assert_eq!(hiread(&mut framer, Event::Read(&TERMINATOR)), Action::Write);
    assert_eq!(hiread(&mut framer, Event::Wrote(1)), Action::Flush);
    assert_eq!(hiread(&mut framer, Event::Failed), Action::Fail(Failure::Transport));
    assert_eq!(framer.message(), None);
}

#[test]
fn framer_ignores_what_it_did_not_ask_for() {
    let mut framer = Framer::new(4);
    assert_eq!(hiread(&mut framer, Event::Wrote(1)), Action::Read);
    assert_eq!(hiread(&mut framer, Event::Flushed), Action::Read);
    assert_eq!(framer.room(), 32);
    assert_eq!(hiread(&mut framer, Event::Read(&TERMINATOR)), Action::Write);
    assert_eq!(hiread(&mut framer, Event::Read(&TERMINATOR)), Action::Write);
    assert_eq!(hiread(&mut framer, Event::Flushed), Action::Write);
    assert_eq!(hiread(&mut framer, Event::Wrote(1)), Action::Flush);
    assert_eq!(hiread(&mut framer, Event::Wrote(1)), Action::Flush);
    assert_eq!(hiread(&mut framer, Event::Flushed), Action::Done);
    assert_eq!(framer.message(), Some(Vec::new()));
}

#[test]
fn terminator_inside_a_read_does_not_end_the_message() {
    let sent = vec![1, SENTINEL, 2];
    let reception = receive(&message(&sent), 8, usize::MAX);
    assert_eq!(reception.framer.message(), Some(sent));
}

#[test]
fn read_that_ends_on_the_terminator_pattern_ends_the_message() {
    let sent = vec![1, SENTINEL, 2];
    let reception = receive(&message(&sent), 8, 16);
    assert_eq!(reception.outcome, Action::Done);
    assert_eq!(reception.framer.message(), Some(vec![1]));
    assert_eq!(reception.consumed, 16);
}

#[test]
fn pattern_across_two_words_at_the_end_of_a_read_ends_the_message() {
    let sent = vec![0x0400_a05b_0000_0000, 0x0000_0000_7ff8_0010];
    let wire = message(&sent);
    assert_eq!(&wire[4..12], &TERMINATOR);
    assert_eq!(receive(&wire, 8, 8).framer.message(), Some(sent));
    let reception = receive(&wire, 8, 12);
    assert_eq!(reception.outcome, Action::Done);
    assert_eq!(reception.framer.message(), Some(Vec::new()));
    assert_eq!(reception.consumed, 12);
}

#[test]
fn bytes_short_of_a_word_before_the_terminator_are_dropped() {
    let mut wire = encode_words(&[5, 6]);
    wire.extend_from_slice(&[9, 9, 9]);
    wire.extend_from_slice(&TERMINATOR);
    let reception = receive(&wire, 8, usize::MAX);
    assert_eq!(reception.outcome, Action::Done);
    assert_eq!(reception.framer.message(), Some(vec![5, 6]));
}

#[test]
fn handshake_goes_write_flush_read_done() {
    let mut handshake = Handshake::new();
    assert_eq!(handshake.action(), Action::Write);
    assert_eq!(handshake.pending(), &TERMINATOR);
    assert_eq!(handshake.room(), 1);
    assert_eq!(hidelimiter(&mut handshake, Event::Wrote(8)), Action::Flush);
    assert_eq!(handshake.pending(), &[] as &[u8]);
    assert_eq!(hidelimiter(&mut handshake, Event::Flushed), Action::Read);
    assert_eq!(handshake.room(), 1);
    assert_eq!(hidelimiter(&mut handshake, Event::Read(&[ACK])), Action::Done);
    assert_eq!(handshake.action(), Action::Done);
}

#[test]
fn handshake_tolerates_partial_and_empty_writes() {
    let mut handshake = Handshake::new();
    assert_eq!(hidelimiter(&mut handshake, Event::Wrote(0)), Action::Write);
    assert_eq!(handshake.pending(), &TERMINATOR);
    assert_eq!(hidelimiter(&mut handshake, Event::Wrote(3)), Action::Write);
    assert_eq!(handshake.pending(), &TERMINATOR[3..]);
    assert_eq!(hidelimiter(&mut handshake, Event::Wrote(4)), Action::Write);
    assert_eq!(handshake.pending(), &TERMINATOR[7..]);
    assert_eq!(hidelimiter(&mut handshake, Event::Wrote(1)), Action::Flush);
}

#[test]
fn handshake_does_not_finish_before_the_acknowledgment() {
    let mut handshake = Handshake::new();
    assert_eq!(hidelimiter(&mut handshake, Event::Read(&[ACK])), Action::Write);
    assert_eq!(hidelimiter(&mut handshake, Event::Flushed), Action::Write);
    assert_eq!(hidelimiter(&mut handshake, Event::Wrote(8)), Action::Flush);
    assert_eq!(hidelimiter(&mut handshake, Event::Read(&[ACK])), Action::Flush);
    assert_eq!(hidelimiter(&mut handshake, Event::Wrote(0)), Action::Flush);
    assert_eq!(hidelimiter(&mut handshake, Event::Flushed), Action::Read);
    assert_eq!(hidelimiter(&mut handshake, Event::Flushed), Action::Read);
    assert_eq!(hidelimiter(&mut handshake, Event::Wrote(0)), Action::Read);
    assert_eq!(hidelimiter(&mut handshake, Event::Read(&[ACK])), Action::Done);
}

#[test]
fn handshake_takes_any_byte_for_the_acknowledgment() {
    for byte in [0u8, b'\n', b'x', 0xff] {
        let mut wire = Vec::new();
        let mut handshake = delimit(&mut wire, usize::MAX);
        assert_eq!(hidelimiter(&mut handshake, Event::Read(&[byte])), Action::Done);
    }
}

#[test]
fn handshake_fails_when_the_stream_ends_unacknowledged() {
    let mut wire = Vec::new();
    let mut handshake = delimit(&mut wire, usize::MAX);
    assert_eq!(hidelimiter(&mut handshake, Event::Read(&[])), Action::Fail(Failure::Unacknowledged));
    assert_eq!(
        hidelimiter(&mut handshake, Event::Read(&[ACK])),
        Action::Fail(Failure::Unacknowledged)
    );
}

#[test]
fn handshake_gives_up_on_a_failed_transfer() {
    let mut handshake = Handshake::new();
    assert_eq!(hidelimiter(&mut handshake, Event::Wrote(2)), Action::Write);
    assert_eq!(hidelimiter(&mut handshake, Event::Failed), Action::Fail(Failure::Transport));
    assert_eq!(hidelimiter(&mut handshake, Event::Wrote(6)), Action::Fail(Failure::Transport));

    let mut handshake = Handshake::new();
    assert_eq!(hidelimiter(&mut handshake, Event::Wrote(8)), Action::Flush);
    assert_eq!(hidelimiter(&mut handshake, Event::Failed), Action::Fail(Failure::Transport));

    let mut wire = Vec::new();
    let mut handshake = delimit(&mut wire, 1);
    assert_eq!(hidelimiter(&mut handshake, Event::Failed), Action::Fail(Failure::Transport));
    assert_eq!(hidelimiter(&mut handshake, Event::Read(&[ACK])), Action::Fail(Failure::Transport));
}

#[test]
fn handshake_that_is_done_stays_done() {
    let mut wire = Vec::new();
    let mut handshake = delimit(&mut wire, usize::MAX);
    assert_eq!(hidelimiter(&mut handshake, Event::Read(&[ACK])), Action::Done);
    assert_eq!(hidelimiter(&mut handshake, Event::Failed), Action::Done);
    assert_eq!(hidelimiter(&mut handshake, Event::Read(&[])), Action::Done);
}

#[test]
fn messages_follow_each_other_on_one_stream() {
    let first = bits(&[1.0, 2.0]);
    let second = bits(&[3.0]);
    let mut wire = message(&first);
    wire.extend_from_slice(&message(&second));

    let reception = receive(&wire[..24], 4, 7);
    assert_eq!(reception.framer.message(), Some(first));
    assert_eq!(reception.consumed, 24);
    let reception = receive(&wire[24..], 4, 7);
    assert_eq!(reception.framer.message(), Some(second));
    assert_eq!(reception.consumed, 16);
}

#[test]
fn outbox_hands_out_what_is_left() {
    let mut outbox = Outbox::new(vec![1, 2, 3, 4, 5]);
    assert_eq!(outbox.pending(), &[1, 2, 3, 4, 5]);
    assert!(!outbox.is_drained());
    outbox.advance(2);
    assert_eq!(outbox.pending(), &[3, 4, 5]);
    outbox.advance(0);
    assert_eq!(outbox.pending(), &[3, 4, 5]);
    assert!(!outbox.is_drained());
    outbox.advance(3);
    assert_eq!(outbox.pending(), &[] as &[u8]);
    assert!(outbox.is_drained());
    assert!(Outbox::new(Vec::new()).is_drained());
}
