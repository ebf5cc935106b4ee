use snarkvm::call_stack::{Authorization, CallStack, CallStackError, MAX_TRANSITIONS};
use snarkvm::types::{Field, PrivateKey};

/// Requests are numbers, transitions strings, assignments pairs, the trace a list of events.
type Stack = CallStack<u64, String, (u8, u8), Vec<String>>;

fn key() -> PrivateKey {
    PrivateKey(Field(7, 0, 0, 0))
}

fn auth(requests: Vec<u64>) -> Authorization<u64, String> {
    Authorization::new(requests, vec!["t0".to_string()])
}

#[test]
fn bounded_stack_is_last_in_first_out() {
    let mut stack: Stack = CallStack::Synthesize(vec![], key(), auth(vec![]));
    assert_eq!(stack.pop(), Err(CallStackError::NoMoreRequests));
    assert_eq!(stack.push(1), Ok(()));
    assert_eq!(stack.push(2), Ok(()));
    assert_eq!(stack.peek(), Ok(2));
    assert_eq!(stack.pop(), Ok(2));
    assert_eq!(stack.pop(), Ok(1));
    assert_eq!(stack.peek(), Err(CallStackError::NoMoreRequests));
}

#[test]
fn bounded_stack_refuses_too_many_requests() {
    let mut stack: Stack = CallStack::CheckDeployment(vec![], key(), vec![(1, 2)], Some(5), None);
    for i in 0..MAX_TRANSITIONS as u64 {
        assert_eq!(stack.push(i), Ok(()));
    }
    assert_eq!(stack.push(99), Err(CallStackError::TooManyRequests));
    assert_eq!(stack.pop(), Ok(MAX_TRANSITIONS as u64 - 1));
    assert_eq!(stack.push(99), Ok(()));
    assert_eq!(stack.peek(), Ok(99));
    match stack {
        CallStack::CheckDeployment(requests, private_key, assignments, constraint_limit, variable_limit) => {
            assert_eq!(requests.len(), MAX_TRANSITIONS);
            assert_eq!(private_key, key());
            assert_eq!(assignments, vec![(1, 2)]);
            assert_eq!(constraint_limit, Some(5));
            assert_eq!(variable_limit, None);
        }
        _ => panic!("the kind of call stack changed"),
    }
}

#[test]
fn authorization_is_first_in_first_out() {
    let mut stack: Stack = CallStack::execute(auth(vec![10, 20]), vec![]).unwrap();
    // An authorization is not bounded.
    for i in 0..(MAX_TRANSITIONS as u64 + 3) {
        assert_eq!(stack.push(100 + i), Ok(()));
    }
    assert_eq!(stack.peek(), Ok(10));
    assert_eq!(stack.pop(), Ok(10));
    assert_eq!(stack.pop(), Ok(20));
    assert_eq!(stack.pop(), Ok(100));
}

#[test]
fn authorization_queue() {
    let mut a = auth(vec![1, 2]);
    a.push(3);
    assert_eq!(a.peek_next(), Ok(1));
    assert_eq!(a.next(), Ok(1));
    let copy = a.replicate();
    assert_eq!(a.next(), Ok(2));
    assert_eq!(a.next(), Ok(3));
    assert_eq!(a.next(), Err(CallStackError::NoMoreRequests));
    assert_eq!(a.peek_next(), Err(CallStackError::NoMoreRequests));
    // The replica still holds the requests from when it was made.
    let mut copy = copy;
    assert_eq!(copy.next(), Ok(2));
    assert_eq!(copy.next(), Ok(3));
}

#[test]
fn replicate_copies_every_part() {
    let stack: Stack = CallStack::Authorize(vec![4, 5], key(), auth(vec![8]));
    let mut copy = stack.replicate();
    match &copy {
        CallStack::Authorize(requests, private_key, authorization) => {
            assert_eq!(requests, &vec![4, 5]);
            assert_eq!(*private_key, key());
            assert_eq!(authorization.replicate().peek_next(), Ok(8));
        }
        _ => panic!("the kind of call stack changed"),
    }
    assert_eq!(copy.pop(), Ok(5));
    let trace = vec!["call".to_string()];
    let mut execute: Stack = CallStack::execute(auth(vec![7]), trace.clone()).unwrap();
    let execute_copy = execute.replicate();
    assert_eq!(execute.pop(), Ok(7));
    match execute_copy {
        CallStack::Execute(mut authorization, copied_trace) => {
            assert_eq!(copied_trace, trace);
            assert_eq!(authorization.next(), Ok(7));
        }
        _ => panic!("the kind of call stack changed"),
    }
    let mut run: Stack = CallStack::PackageRun(vec![1], key(), vec![(3, 4)]);
    match run.replicate() {
        CallStack::PackageRun(requests, private_key, assignments) => {
            assert_eq!(requests, vec![1]);
            assert_eq!(private_key, key());
            assert_eq!(assignments, vec![(3, 4)]);
        }
        _ => panic!("the kind of call stack changed"),
    }
    assert_eq!(run.pop(), Ok(1));
}
