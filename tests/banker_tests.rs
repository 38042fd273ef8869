use banker::error::BankerError;
use banker::input::parse_snapshot;
use banker::need::compute_need_matrix;
use banker::request::fulfill_request;
use banker::safety::{is_safe_state, safe_sequence};
use banker::report::{format_matrix, format_vector};
use banker::state::{check_dimensions, run_banker, BankerState, Verdict};

fn textbook_max() -> Vec<Vec<u32>> {
    vec![vec![7, 5, 3], vec![3, 2, 2], vec![9, 0, 2], vec![2, 2, 2], vec![4, 3, 3]]
}

fn textbook_allocation() -> Vec<Vec<u32>> {
    vec![vec![0, 1, 0], vec![2, 0, 0], vec![3, 0, 2], vec![2, 1, 1], vec![0, 0, 2]]
}

fn textbook_available() -> Vec<u32> {
    vec![3, 3, 2]
}

fn textbook_state() -> BankerState {
    BankerState::new(5, 3, textbook_available(), textbook_max(), textbook_allocation()).unwrap()
}

const TEXTBOOK_INPUT: &str = "5 3\n\n10 5 7\n\n3 3 2\n\n7 5 3\n3 2 2\n9 0 2\n2 2 2\n4 3 3\n\n0 1 0\n2 0 0\n3 0 2\n2 1 1\n0 0 2\n\n1:1 0 2\n";

#[test]
fn need_matrix_of_textbook_state() {
    let need = compute_need_matrix(5, 3, &textbook_max(), &textbook_allocation()).unwrap();
    assert_eq!(
        need,
        vec![vec![7, 4, 3], vec![1, 2, 2], vec![6, 0, 0], vec![0, 1, 1], vec![4, 3, 1]]
    );
}

#[test]
fn need_matrix_rejects_allocation_above_max() {
    let max = vec![vec![1, 2], vec![3, 4]];
    let allocation = vec![vec![1, 2], vec![4, 0]];
    assert_eq!(compute_need_matrix(2, 2, &max, &allocation), Err(BankerError::ConstraintViolation));
}

#[test]
fn need_matrix_equal_max_and_allocation_is_zero() {
    let m = vec![vec![5, 0], vec![2, 9]];
    let need = compute_need_matrix(2, 2, &m, &m).unwrap();
    assert_eq!(need, vec![vec![0, 0], vec![0, 0]]);
}

#[test]
fn textbook_state_is_safe() {
    assert!(is_safe_state(5, 3, &textbook_max(), &textbook_allocation(), &textbook_available()));
}

#[test]
fn textbook_safe_sequence_takes_lowest_id_first() {
    let order = safe_sequence(5, 3, &textbook_max(), &textbook_allocation(), &textbook_available());
    assert_eq!(order, Some(vec![1, 3, 0, 2, 4]));
}

#[test]
fn safety_check_is_deterministic() {
    let first = safe_sequence(5, 3, &textbook_max(), &textbook_allocation(), &textbook_available());
    let second = safe_sequence(5, 3, &textbook_max(), &textbook_allocation(), &textbook_available());
    assert_eq!(first, second);
    let a = is_safe_state(5, 3, &textbook_max(), &textbook_allocation(), &textbook_available());
    let b = is_safe_state(5, 3, &textbook_max(), &textbook_allocation(), &textbook_available());
    assert_eq!(a, b);
}

#[test]
fn safety_verdict_ignores_process_numbering() {
    // The same processes listed in reverse order: the verdict stays, the order changes.
    let mut max = textbook_max();
    let mut allocation = textbook_allocation();
    max.reverse();
    allocation.reverse();
    assert!(is_safe_state(5, 3, &max, &allocation, &textbook_available()));
    let order = safe_sequence(5, 3, &max, &allocation, &textbook_available()).unwrap();
    assert_eq!(order, vec![1, 0, 3, 2, 4]);
}

#[test]
fn unsafe_snapshot_is_reported_unsafe() {
    let max = vec![vec![2, 2], vec![2, 2]];
    let allocation = vec![vec![1, 1], vec![1, 1]];
    let available = vec![0, 0];
    assert!(!is_safe_state(2, 2, &max, &allocation, &available));
    assert_eq!(safe_sequence(2, 2, &max, &allocation, &available), None);
}

#[test]
fn state_is_unsafe_when_no_process_can_ever_finish() {
    let mut state =
        BankerState::new(2, 2, vec![0, 0], vec![vec![2, 2], vec![2, 2]], vec![vec![1, 1], vec![1, 1]])
            .unwrap();
    assert!(!state.is_safe());
    assert_eq!(state.safe_sequence(), None);
    let verdict = run_banker(&mut state, 0, &vec![0, 0]);
    assert_eq!(verdict, Verdict::SystemUnsafe);
    assert_eq!(state.available, vec![0, 0]);
    assert_eq!(state.allocation, vec![vec![1, 1], vec![1, 1]]);
}

#[test]
fn textbook_request_of_process_one_is_granted() {
    // need[1] = [1, 2, 2] and available = [3, 3, 2]: the request fits both,
    // so it is applied to a candidate, which is safe.
    let mut state = textbook_state();
    let verdict = run_banker(&mut state, 1, &vec![1, 0, 2]);
    assert_eq!(verdict, Verdict::Granted);
    assert_eq!(state.available, vec![2, 3, 0]);
    assert_eq!(state.allocation[1], vec![3, 0, 2]);
    assert_eq!(state.need[1], vec![0, 2, 0]);
    assert_eq!(state.max, textbook_max());
    assert!(state.is_safe());
}

#[test]
fn textbook_request_is_not_rejected_for_need() {
    let mut state = textbook_state();
    let verdict = state.request(1, &vec![1, 0, 2]);
    assert_ne!(verdict, Verdict::Rejected(BankerError::ExceedsDeclaredNeed));
    assert_ne!(verdict, Verdict::Rejected(BankerError::InsufficientAvailable));
}

#[test]
fn request_leading_to_unsafe_state_is_denied() {
    let mut state = textbook_state();
    assert_eq!(state.request(1, &vec![1, 0, 2]), Verdict::Granted);
    let verdict = state.request(0, &vec![0, 2, 0]);
    assert_eq!(verdict, Verdict::Denied);
    assert_eq!(state.available, vec![2, 3, 0]);
    assert_eq!(
        state.allocation,
        vec![vec![0, 1, 0], vec![3, 0, 2], vec![3, 0, 2], vec![2, 1, 1], vec![0, 0, 2]]
    );
    assert_eq!(
        state.need,
        vec![vec![7, 4, 3], vec![0, 2, 0], vec![6, 0, 0], vec![0, 1, 1], vec![4, 3, 1]]
    );
}

#[test]
fn request_above_need_is_rejected() {
    let mut state = textbook_state();
    let verdict = state.request(3, &vec![1, 0, 0]);
    assert_eq!(verdict, Verdict::Rejected(BankerError::ExceedsDeclaredNeed));
    assert_eq!(state.available, textbook_available());
    assert_eq!(state.allocation, textbook_allocation());
}

#[test]
fn request_above_available_is_rejected() {
    let mut state = textbook_state();
    let verdict = state.request(2, &vec![6, 0, 0]);
    assert_eq!(verdict, Verdict::Rejected(BankerError::InsufficientAvailable));
    assert_eq!(state.available, textbook_available());
    assert_eq!(state.allocation, textbook_allocation());
}

#[test]
fn first_failing_resource_decides_the_error() {
    // Resource 0 exceeds only the available units, resource 1 exceeds the need.
    let mut available = vec![0, 5];
    let mut allocation = vec![vec![0, 0]];
    let mut need = vec![vec![3, 1]];
    let r = fulfill_request(0, &vec![1, 2], 2, &mut available, &mut allocation, &mut need);
    assert_eq!(r, Err(BankerError::InsufficientAvailable));
    let r = fulfill_request(0, &vec![0, 2], 2, &mut available, &mut allocation, &mut need);
    assert_eq!(r, Err(BankerError::ExceedsDeclaredNeed));
    assert_eq!(available, vec![0, 5]);
    assert_eq!(allocation, vec![vec![0, 0]]);
    assert_eq!(need, vec![vec![3, 1]]);
}

#[test]
fn fulfilled_request_moves_units() {
    let mut available = vec![4, 5];
    let mut allocation = vec![vec![1, 1], vec![2, 2]];
    let mut need = vec![vec![3, 3], vec![1, 1]];
    let r = fulfill_request(0, &vec![2, 3], 2, &mut available, &mut allocation, &mut need);
    assert_eq!(r, Ok(()));
    assert_eq!(available, vec![2, 2]);
    assert_eq!(allocation, vec![vec![3, 4], vec![2, 2]]);
    assert_eq!(need, vec![vec![1, 0], vec![1, 1]]);
}

#[test]
fn request_of_unknown_process_is_malformed() {
    let mut state = textbook_state();
    assert_eq!(state.request(5, &vec![0, 0, 0]), Verdict::Rejected(BankerError::MalformedInput));
    assert_eq!(state.request(0, &vec![0, 0]), Verdict::Rejected(BankerError::MalformedInput));
    assert_eq!(state.available, textbook_available());
}

#[test]
fn zero_request_is_granted_unchanged() {
    let mut state = textbook_state();
    assert_eq!(state.request(4, &vec![0, 0, 0]), Verdict::Granted);
    assert_eq!(state.available, textbook_available());
    assert_eq!(state.allocation, textbook_allocation());
}

#[test]
fn dimension_bounds() {
    assert_eq!(check_dimensions(1024, 26), Ok(()));
    assert_eq!(check_dimensions(1, 1), Ok(()));
    assert_eq!(check_dimensions(1025, 26), Err(BankerError::DimensionLimitExceeded));
    assert_eq!(check_dimensions(1024, 27), Err(BankerError::DimensionLimitExceeded));
    assert_eq!(check_dimensions(0, 3), Err(BankerError::DimensionLimitExceeded));
    assert_eq!(check_dimensions(3, 0), Err(BankerError::DimensionLimitExceeded));
}

#[test]
fn largest_state_is_accepted() {
    let max = vec![vec![1u32; 26]; 1024];
    let allocation = vec![vec![0u32; 26]; 1024];
    let state = BankerState::new(1024, 26, vec![1; 26], max, allocation).unwrap();
    assert!(state.is_safe());
    let order = state.safe_sequence().unwrap();
    assert_eq!(order, (0..1024).collect::<Vec<usize>>());
}

#[test]
fn oversized_state_is_rejected() {
    let r = BankerState::new(1025, 1, vec![0], vec![vec![0]; 1025], vec![vec![0]; 1025]);
    assert!(matches!(r, Err(BankerError::DimensionLimitExceeded)));
    let r = BankerState::new(1, 27, vec![0; 27], vec![vec![0; 27]], vec![vec![0; 27]]);
    assert!(matches!(r, Err(BankerError::DimensionLimitExceeded)));
}

#[test]
fn state_with_wrong_shapes_is_malformed() {
    let r = BankerState::new(2, 2, vec![1, 1], vec![vec![1, 1], vec![1]], vec![vec![0, 0], vec![0, 0]]);
    assert!(matches!(r, Err(BankerError::MalformedInput)));
    let r = BankerState::new(2, 2, vec![1], vec![vec![1, 1], vec![1, 1]], vec![vec![0, 0], vec![0, 0]]);
    assert!(matches!(r, Err(BankerError::MalformedInput)));
}

#[test]
fn state_with_allocation_above_max_is_a_violation() {
    let r = BankerState::new(1, 2, vec![1, 1], vec![vec![1, 1]], vec![vec![2, 0]]);
    assert!(matches!(r, Err(BankerError::ConstraintViolation)));
}

#[test]
fn new_state_derives_need() {
    let state = textbook_state();
    assert_eq!(state.num_processes(), 5);
    assert_eq!(state.num_resources(), 3);
    assert_eq!(
        state.need,
        vec![vec![7, 4, 3], vec![1, 2, 2], vec![6, 0, 0], vec![0, 1, 1], vec![4, 3, 1]]
    );
}

#[test]
fn parses_textbook_input() {
    let snap = parse_snapshot(&TEXTBOOK_INPUT.as_bytes().to_vec()).unwrap();
    assert_eq!(snap.num_processes, 5);
    assert_eq!(snap.num_resources, 3);
    assert_eq!(snap.total, vec![10, 5, 7]);
    assert_eq!(snap.available, textbook_available());
    assert_eq!(snap.max, textbook_max());
    assert_eq!(snap.allocation, textbook_allocation());
    let request = snap.request.unwrap();
    assert_eq!(request.process_id, 1);
    assert_eq!(request.amounts, vec![1, 0, 2]);
}

#[test]
fn parses_lines_with_surrounding_whitespace() {
    let text = "1 2\r\n\r\n  4 5 \r\n\r\n4 5\r\n\r\n3 3\r\n\r\n1 1\r\n\r\n0:1 1";
    let snap = parse_snapshot(&text.as_bytes().to_vec()).unwrap();
    assert_eq!(snap.total, vec![4, 5]);
    assert_eq!(snap.available, vec![4, 5]);
    assert_eq!(snap.max, vec![vec![3, 3]]);
    assert_eq!(snap.allocation, vec![vec![1, 1]]);
    let request = snap.request.unwrap();
    assert_eq!(request.process_id, 0);
    assert_eq!(request.amounts, vec![1, 1]);
}

#[test]
fn missing_request_line_gives_no_request() {
    let text = "1 1\n\n3\n\n2\n\n2\n\n1\n";
    let snap = parse_snapshot(&text.as_bytes().to_vec()).unwrap();
    assert!(snap.request.is_none());
    let text = "1 1\n\n3\n\n2\n\n2\n\n1";
    let snap = parse_snapshot(&text.as_bytes().to_vec()).unwrap();
    assert!(snap.request.is_none());
}

#[test]
fn parse_rejects_out_of_bound_dimensions() {
    let r = parse_snapshot(&"1025 3\n".as_bytes().to_vec());
    assert!(matches!(r, Err(BankerError::DimensionLimitExceeded)));
    let r = parse_snapshot(&"2 27\n".as_bytes().to_vec());
    assert!(matches!(r, Err(BankerError::DimensionLimitExceeded)));
}

#[test]
fn parse_rejects_malformed_text() {
    let cases = [
        "",
        "5\n",
        "5 3 1\n",
        "x 3\n",
        "1 1\n\n3\n\n2\n\n2\n",
        "1 1\n\n3\n\n-2\n\n2\n\n1\n\n0:0",
        "1 1\n\n3\n\n2\n\n2  \n\n1 a\n\n0:0",
        "1 1\n\n3\n\n4294967296\n\n2\n\n1\n\n0:0",
        "1 1\n\n3\n\n2\n\n2\n\n\n\n0:0",
        "1 2\n\n3\t4\n\n2 2\n\n2 2\n\n1 1\n\n0:0 0",
    ];
    for text in cases.iter() {
        let r = parse_snapshot(&text.as_bytes().to_vec());
        assert!(matches!(r, Err(BankerError::MalformedInput)), "{:?}", text);
    }
}

#[test]
fn parse_accepts_largest_u32() {
    let text = "1 1\n\n4294967295\n\n4294967295\n\n4294967295\n\n0\n\n0:0";
    let snap = parse_snapshot(&text.as_bytes().to_vec()).unwrap();
    assert_eq!(snap.total, vec![u32::MAX]);
}

#[test]
fn unparsable_request_gives_no_request() {
    let text = "1 1\n\n3\n\n2\n\n2\n\n1\n\n0:x";
    let snap = parse_snapshot(&text.as_bytes().to_vec()).unwrap();
    assert!(snap.request.is_none());
}

#[test]
fn formats_available_vector() {
    let out = format_vector(&b"Available".to_vec(), &vec![3, 3, 2], None);
    assert_eq!(String::from_utf8(out).unwrap(), "The Available Vector is: \nA B C \n3 3 2 \n\n");
}

#[test]
fn formats_wide_vector_values() {
    let out = format_vector(&b"Resource".to_vec(), &vec![10, 5, 7], None);
    assert_eq!(String::from_utf8(out).unwrap(), "The Resource Vector is: \n A B C \n10 5 7 \n\n");
}

#[test]
fn formats_request_vector() {
    let out = format_vector(&b"Request".to_vec(), &vec![1, 0, 2], Some(1));
    assert_eq!(String::from_utf8(out).unwrap(), "The Request Vector is: \n  A B C \n1:1 0 2 \n\n");
}

#[test]
fn formats_need_matrix() {
    let need = compute_need_matrix(5, 3, &textbook_max(), &textbook_allocation()).unwrap();
    let out = format_matrix(&b"Need".to_vec(), &need, 3);
    assert_eq!(
        String::from_utf8(out).unwrap(),
        "The Need Matrix is: \n   A B C \n0: 7 4 3 \n1: 1 2 2 \n2: 6 0 0 \n3: 0 1 1 \n4: 4 3 1 \n\n"
    );
}

#[test]
fn formats_matrix_with_wide_column() {
    let m = vec![vec![10, 1], vec![2, 3]];
    let out = format_matrix(&b"Max".to_vec(), &m, 2);
    assert_eq!(String::from_utf8(out).unwrap(), "The Max Matrix is: \n    A B \n0: 10 1 \n1:  2 3 \n\n");
}
