use lipics_filter::polyreg::split_vec;

#[test]
fn split_without_headers_keeps_everything_before() {
    let input: Vec<Result<char, u32>> = vec![Err(1), Err(2), Err(3)];
    let (before, after) = split_vec(input);
    assert_eq!(before, vec![1, 2, 3]);
    assert!(after.is_empty());
}

#[test]
fn split_of_headers_alone_gives_one_empty_run_each() {
    let input: Vec<Result<char, u32>> = vec![Ok('a'), Ok('b'), Ok('c')];
    let (before, after) = split_vec(input);
    assert!(before.is_empty());
    assert_eq!(after, vec![('a', vec![]), ('b', vec![]), ('c', vec![])]);
}

#[test]
fn split_of_nothing_gives_nothing() {
    let input: Vec<Result<char, u32>> = vec![];
    let (before, after) = split_vec(input);
    assert!(before.is_empty());
    assert!(after.is_empty());
}

#[test]
fn split_pairs_each_header_with_its_run() {
    // aabbababa, with a for a header and b for content
    let input: Vec<Result<u8, char>> = vec![
        Ok(1),
        Ok(2),
        Err('p'),
        Err('q'),
        Ok(3),
        Err('r'),
        Ok(4),
        Err('s'),
        Ok(5),
    ];
    let (before, after) = split_vec(input);
    assert_eq!(before, Vec::<char>::new());
    assert_eq!(
        after,
        vec![
            (1, vec![]),
            (2, vec!['p', 'q']),
            (3, vec!['r']),
            (4, vec!['s']),
            (5, vec![]),
        ]
    );
}

#[test]
fn split_keeps_content_before_the_first_header() {
    let input: Vec<Result<u8, char>> = vec![Err('x'), Err('y'), Ok(1), Err('z'), Ok(2)];
    let (before, after) = split_vec(input);
    assert_eq!(before, vec!['x', 'y']);
    assert_eq!(after, vec![(1, vec!['z']), (2, vec![])]);
}

#[test]
fn split_loses_nothing() {
    let input: Vec<Result<u8, char>> =
        vec![Err('x'), Ok(1), Err('y'), Err('z'), Ok(2), Ok(3), Err('w')];
    let (before, after) = split_vec(input.clone());
    let mut again: Vec<Result<u8, char>> = before.into_iter().map(Err).collect();
    for (header, run) in after {
        again.push(Ok(header));
        again.extend(run.into_iter().map(Err));
    }
    assert_eq!(again, input);
}
