use colony::Handle;
use wasi_tcp::{Poll, WasmFutures};

fn numbers(list: &[(Handle, u32)]) -> Vec<u32> {
    list.iter().map(|item| item.1).collect()
}

#[test]
fn nothing_to_do() {
    let mut futures = WasmFutures::new();
    assert!(futures.start_round(&vec![]).is_none());
}

#[test]
fn spawned_tasks_are_polled() {
    let mut futures = WasmFutures::new();
    assert!(futures.room() >= 3);
    let list = futures.start_round(&vec![30, 10, 20]).unwrap();
    assert_eq!(list.len(), 3);
    let mut found = numbers(&list);
    found.sort();
    assert_eq!(found, vec![10, 20, 30]);
}

#[test]
fn finished_tasks_are_dropped() {
    let mut futures = WasmFutures::new();
    let list = futures.start_round(&vec![1, 2, 3]).unwrap();
    let answers: Vec<(Handle, u32)> = list
        .iter()
        .map(|item| (item.0, if item.1 == 2 { 1 } else { 0 }))
        .collect();
    assert_eq!(futures.finish_round(&answers), Poll::Pending);
    let rest = futures.start_round(&vec![]).unwrap();
    let kept: Vec<(Handle, u32)> = list.iter().copied().filter(|item| item.1 != 2).collect();
    assert_eq!(rest, kept);
    let all: Vec<(Handle, u32)> = rest.iter().map(|item| (item.0, 1)).collect();
    assert_eq!(futures.finish_round(&all), Poll::Ready(()));
    assert!(futures.start_round(&vec![]).is_none());
}

#[test]
fn only_one_means_finished() {
    let mut futures = WasmFutures::new();
    let list = futures.start_round(&vec![5]).unwrap();
    assert_eq!(futures.finish_round(&vec![(list[0].0, 2)]), Poll::Pending);
    assert_eq!(futures.start_round(&vec![]).unwrap(), list);
}

#[test]
fn the_same_number_can_be_spawned_twice() {
    let mut futures = WasmFutures::new();
    let list = futures.start_round(&vec![5, 5]).unwrap();
    assert_ne!(list[0].0, list[1].0);
    assert_eq!(futures.finish_round(&vec![(list[0].0, 1)]), Poll::Pending);
    assert_eq!(numbers(&futures.start_round(&vec![]).unwrap()), vec![5]);
}

#[test]
fn handles_are_not_used_again() {
    let mut futures = WasmFutures::new();
    let first = futures.start_round(&vec![1]).unwrap();
    assert_eq!(futures.finish_round(&vec![(first[0].0, 1)]), Poll::Ready(()));
    let second = futures.start_round(&vec![2]).unwrap();
    assert_ne!(first[0].0, second[0].0);
    assert_eq!(futures.finish_round(&vec![(first[0].0, 1)]), Poll::Pending);
    assert_eq!(numbers(&futures.start_round(&vec![]).unwrap()), vec![2]);
}

#[test]
fn an_answer_given_twice_counts_once() {
    let mut futures = WasmFutures::new();
    let list = futures.start_round(&vec![1, 2]).unwrap();
    let done = list[1].0;
    assert_eq!(futures.finish_round(&vec![(done, 1), (done, 1)]), Poll::Pending);
    assert_eq!(futures.start_round(&vec![]).unwrap(), vec![list[0]]);
}

#[test]
fn new_tasks_leave_the_old_ones_in_order() {
    let mut futures = WasmFutures::new();
    let list = futures.start_round(&vec![1, 2, 3, 4]).unwrap();
    futures.finish_round(&vec![(list[1].0, 1)]);
    let more = futures.start_round(&vec![5, 6]).unwrap();
    let old: Vec<u32> = numbers(&more).into_iter().filter(|n| *n <= 4).collect();
    assert_eq!(old, vec![1, 3, 4]);
    assert_eq!(more.len(), 5);
}

#[test]
fn room_counts_the_tasks_held() {
    let mut futures = WasmFutures::new();
    let room = futures.room();
    let list = futures.start_round(&vec![1, 2]).unwrap();
    assert_eq!(futures.room(), room - 2);
    assert_eq!(futures.finish_round(&vec![(list[0].0, 1)]), Poll::Pending);
    assert_eq!(futures.room(), room - 1);
}

#[test]
fn tasks_come_and_go_without_end() {
    let mut futures = WasmFutures::new();
    let held = futures.start_round(&vec![7, 8, 9]).unwrap();
    let mut now = held.clone();
    for task in 100..600_100u32 {
        let list = futures.start_round(&vec![task]).unwrap();
        assert_eq!(list.len(), 4);
        let old: Vec<(Handle, u32)> = list.iter().copied().filter(|item| item.1 != task).collect();
        assert_eq!(numbers(&old), vec![7, 8, 9]);
        let done = list.iter().find(|item| item.1 == task).unwrap().0;
        assert_eq!(futures.finish_round(&vec![(done, 1)]), Poll::Pending);
        if task - 100 == 524_288 {
            assert_ne!(old, now);
        } else {
            assert_eq!(old, now);
        }
        now = old;
    }
    let all: Vec<(Handle, u32)> = now.iter().map(|item| (item.0, 1)).collect();
    assert_eq!(futures.finish_round(&all), Poll::Ready(()));
}

#[test]
fn tasks_over_several_rounds() {
    let mut futures = WasmFutures::new();
    let first = futures.start_round(&vec![1, 2, 3]).unwrap();
    let answers: Vec<(Handle, u32)> = first
        .iter()
        .map(|item| (item.0, if item.1 == 2 { 1 } else { 0 }))
        .collect();
    futures.finish_round(&answers);
    for spawned in [vec![4], vec![5], vec![]] {
        let list = futures.start_round(&spawned).unwrap();
        let found = numbers(&list);
        assert!(!found.contains(&2));
        assert!(found.contains(&1) && found.contains(&3));
        let answers: Vec<(Handle, u32)> = list.iter().map(|item| (item.0, 0)).collect();
        assert_eq!(futures.finish_round(&answers), Poll::Pending);
    }
    assert!(numbers(&futures.start_round(&vec![2]).unwrap()).contains(&2));
}

#[test]
fn tasks_are_polled_in_the_order_they_came() {
    let mut futures = WasmFutures::new();
    assert_eq!(numbers(&futures.start_round(&vec![30, 10, 20]).unwrap()), vec![30, 10, 20]);
    let list = futures.start_round(&vec![5, 40]).unwrap();
    assert_eq!(numbers(&list), vec![30, 10, 20, 5, 40]);
}
