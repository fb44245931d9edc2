use rustcode::kernel64::user_mode::{UserConsole, init as user_pages};
use rustcode::user::console::{Console, WriteError, puts};
use rustcode::user::primes::{MAX_PRIME, is_prime, primes_below};
use rustcode::user::syscall::{Syscall, exit, sleep, write_succeeded};

#[test]
fn system_call_requests() {
    assert_eq!(rustcode::user::syscall::write(0x1000, 5), Syscall { number: 1, arg1: 0x1000, arg2: 5 });
    assert_eq!(sleep(), Syscall { number: 8, arg1: 0, arg2: 0 });
    assert_eq!(exit(3), Syscall { number: 9, arg1: 3, arg2: 0 });
    assert!(write_succeeded(0));
    assert!(!write_succeeded(1));
}

#[test]
fn user_console_writes() {
    assert_eq!(Console.write_str(0x2000, 12), Syscall { number: 1, arg1: 0x2000, arg2: 12 });
    assert_eq!(Console.write_outcome(0), Ok(()));
    assert_eq!(Console.write_outcome(5), Err(WriteError));
    assert_eq!(puts(0x3000, 2), Syscall { number: 1, arg1: 0x3000, arg2: 2 });
    assert_eq!(UserConsole.write_str(0x10, 3), Syscall { number: 1, arg1: 0x10, arg2: 3 });
    assert_eq!(UserConsole.write_outcome(0), Ok(()));
    assert_eq!(UserConsole.write_outcome(0xFFFF_FFFF), Err(WriteError));
}

#[test]
fn primes_below_one_hundred() {
    let primes = primes_below(MAX_PRIME);
    assert_eq!(
        primes,
        vec![2, 3, 5, 7, 11, 13, 17, 19, 23, 29, 31, 37, 41, 43, 47, 53, 59, 61, 67, 71, 73, 79, 83, 89, 97]
    );
    assert_eq!(primes_below(2), vec![]);
    assert_eq!(primes_below(3), vec![2]);
}

#[test]
fn primality() {
    assert!(!is_prime(0));
    assert!(!is_prime(1));
    assert!(is_prime(2));
    assert!(!is_prime(91));
    assert!(is_prime(97));
}

#[test]
fn pages_handed_to_user_code() {
    let pages = user_pages(0x9_F000);
    assert_eq!(pages.len(), 217);
    assert_eq!(pages[0], 0x9_F000);
    assert_eq!(pages[1], 0x8000);
    assert_eq!(pages[2], 0x9000);
    assert_eq!(pages[216], 0xDF000);
}
