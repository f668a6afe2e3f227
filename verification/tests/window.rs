use esp32_xvc::xvc::window::{ReceiveWindow, RECEIVE_BUFFER_SIZE};

fn window() -> ReceiveWindow {
    ReceiveWindow::new(Box::leak(Box::new([0; RECEIVE_BUFFER_SIZE])))
}

fn put(window: &mut ReceiveWindow, bytes: &[u8]) {
    let mut rest = bytes;
    while !rest.is_empty() {
        let space = match window.writable() {
            Some(space) => space,
            None => panic!("window is full"),
        };
        let count = space.len().min(rest.len());
        space[..count].copy_from_slice(&rest[..count]);
        window.commit(count);
        rest = &rest[count..];
    }
}

#[test]
fn bytes_come_out_in_order() {
    let mut window = window();
    put(&mut window, &[1, 2, 3]);
    put(&mut window, &[4, 5]);
    assert_eq!(window.data(), &[1, 2, 3, 4, 5]);
    window.consume(2);
    assert_eq!(window.data(), &[3, 4, 5]);
    assert_eq!(window.len(), 3);
    let mut output = [0; 2];
    assert_eq!(window.take_into(&mut output), 2);
    assert_eq!(output, [3, 4]);
    let mut more = [9; 3];
    assert_eq!(window.take_into(&mut more), 1);
    assert_eq!(more, [5, 9, 9]);
    assert_eq!(window.len(), 0);
}

#[test]
fn clearing_drops_everything() {
    let mut window = window();
    put(&mut window, &[1, 2, 3]);
    window.clear();
    assert!(window.data().is_empty());
}

#[test]
fn full_window_has_no_room() {
    let mut window = window();
    put(&mut window, &[7; RECEIVE_BUFFER_SIZE]);
    assert!(window.writable().is_none());
    window.consume(1);
    assert_eq!(window.writable().map(|space| space.len()), Some(1));
    assert_eq!(window.len(), RECEIVE_BUFFER_SIZE - 1);
}

#[test]
fn room_at_the_front_is_used_again() {
    let mut window = window();
    put(&mut window, &vec![1; RECEIVE_BUFFER_SIZE - 2]);
    put(&mut window, &[2, 3]);
    window.consume(RECEIVE_BUFFER_SIZE - 2);
    put(&mut window, &[4]);
    assert_eq!(window.data(), &[2, 3, 4]);
}

#[test]
fn long_traffic_keeps_its_order() {
    let mut window = window();
    let mut next_in = 0u8;
    let mut next_out = 0u8;
    for round in 0..200 {
        let piece: Vec<u8> = (0..(round * 37) % 500)
            .map(|_| {
                let byte = next_in;
                next_in = next_in.wrapping_add(1);
                byte
            })
            .collect();
        put(&mut window, &piece);
        let mut output = vec![0; (round * 53) % 700];
        let count = window.take_into(&mut output);
        for byte in &output[..count] {
            assert_eq!(*byte, next_out);
            next_out = next_out.wrapping_add(1);
        }
    }
}

#[test]
fn empty_window_offers_the_whole_buffer() {
    let mut window = window();
    assert_eq!(window.writable().map(|space| space.len()), Some(RECEIVE_BUFFER_SIZE));
    put(&mut window, &[1, 2, 3]);
    assert_eq!(window.writable().map(|space| space.len()), Some(RECEIVE_BUFFER_SIZE - 3));
    window.consume(2);
    assert_eq!(window.writable().map(|space| space.len()), Some(RECEIVE_BUFFER_SIZE - 3));
    window.consume(1);
    assert_eq!(window.writable().map(|space| space.len()), Some(RECEIVE_BUFFER_SIZE));
    put(&mut window, &[4, 5]);
    window.clear();
    assert_eq!(window.writable().map(|space| space.len()), Some(RECEIVE_BUFFER_SIZE));
}
