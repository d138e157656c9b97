use tikv::util::buf::PipeBuffer;

// An empty buffer whose written region begins at storage index `pos`.
fn buffer_at(cap: usize, pos: usize) -> PipeBuffer {
    let mut s = PipeBuffer::new(cap);
    let filler = vec![0xaau8; pos];
    assert_eq!(pos, s.read_from(&filler));
    let mut sink = vec![0u8; pos];
    assert_eq!(pos, s.write_to(&mut sink));
    assert_eq!(sink, filler);
    assert!(s.is_empty());
    s
}

#[test]
fn test_read_from() {
    let s = PipeBuffer::new(25);

    let cap = s.capacity();
    let padding = vec![0; cap];
    for len in 0..cap {
        let expected = vec![len as u8; len];

        for pos in 0..cap + 1 {
            for l in 0..len {
                let mut s = buffer_at(cap, pos);

                let mut input = &expected[0..l];
                assert_eq!(l, s.read_from(input));
                assert_eq!(s.to_vec(), &expected[0..l]);
                input = &expected[l..];
                assert_eq!(len - l, s.read_from(input));
                assert_eq!(s.to_vec(), expected.as_slice());

                input = padding.as_slice();
                assert_eq!(cap - len, s.read_from(input));
                let mut exp = expected.clone();
                exp.extend_from_slice(&padding[..cap - len]);
                assert_eq!(s.to_vec(), exp.as_slice());
                assert!(s.eq_slice(exp.as_slice()));
            }
        }
    }
}

#[test]
fn test_write_to() {
    let s = PipeBuffer::new(25);

    let cap = s.capacity();
    for len in 0..cap {
        let expected = vec![len as u8; len];

        for pos in 0..cap + 1 {
            for l in 0..len {
                let mut s = buffer_at(cap, pos);

                let input = expected.as_slice();
                assert_eq!(len, s.read_from(input));

                let mut w = vec![0; l];
                assert_eq!(l, s.write_to(&mut w));
                assert_eq!(w, &expected[..l]);
                assert_eq!(s.to_vec(), &expected[l..]);

                let mut w = vec![0; cap];
                assert_eq!(len - l, s.write_to(&mut w));
                assert_eq!(&w[..len - l], &expected[l..]);
            }
        }
    }
}

#[test]
fn test_shrink_to() {
    let cap = 25;
    for l in 0..cap {
        let expect = vec![l as u8; l];

        for pos in 0..cap + 1 {
            for shrink in 0..cap {
                let mut s = buffer_at(cap, pos);

                let input = expect.as_slice();
                assert_eq!(l, s.read_from(input));
                s.shrink_to(shrink);

                assert_eq!(shrink, s.capacity());
                if shrink > l {
                    assert_eq!(s.to_vec(), expect.as_slice());
                } else {
                    assert_eq!(s.to_vec(), &expect[..shrink]);
                }
            }
        }
    }
}

#[test]
fn test_ensure() {
    let cap = 25;
    for l in 0..cap {
        let expect = vec![l as u8; l];

        for pos in 0..cap + 1 {
            for init in 0..cap {
                let mut s = buffer_at(cap, pos);

                let example = vec![init as u8; init];
                let mut input = example.as_slice();
                assert_eq!(init, s.read_from(input));
                assert_eq!(s.to_vec(), example.as_slice());
                s.ensure(init + l);
                assert_eq!(s.to_vec(), example.as_slice());
                input = expect.as_slice();

                assert_eq!(l, s.read_from(input));
                let mut exp = example.clone();
                exp.extend_from_slice(&expect);
                assert_eq!(s.to_vec(), exp.as_slice());
            }
        }
    }
}

#[test]
fn test_read_from_takes_only_what_fits() {
    let mut s = PipeBuffer::new(4);
    assert_eq!(4, s.read_from(b"abcdef"));
    assert!(s.is_full());
    assert_eq!(0, s.read_from(b"gh"));
    assert_eq!(s.to_vec(), b"abcd");
    assert_eq!(4, s.len());
}

#[test]
fn test_write_to_keeps_rest_of_sink() {
    let mut s = PipeBuffer::new(8);
    assert_eq!(3, s.read_from(b"xyz"));
    let mut w = vec![1u8, 2, 3, 4, 5];
    assert_eq!(3, s.write_to(&mut w));
    assert_eq!(w, vec![b'x', b'y', b'z', 4, 5]);
    assert!(s.is_empty());
}

#[test]
fn test_ensure_keeps_smaller_request() {
    let mut s = PipeBuffer::new(10);
    s.ensure(3);
    assert_eq!(10, s.capacity());
    s.ensure(12);
    assert_eq!(12, s.capacity());
}

#[test]
fn test_pipe_buffer_eq_ignores_position() {
    let mut a = buffer_at(10, 7);
    let mut b = PipeBuffer::new(20);
    assert_eq!(5, a.read_from(b"hello"));
    assert_eq!(5, b.read_from(b"hello"));
    assert!(a == b);
    assert_eq!(1, b.read_from(b"!"));
    assert!(a != b);
}
