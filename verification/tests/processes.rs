use std::collections::VecDeque;

use rustcode::kernel::interrupts::context::{Context, RawContext};
use rustcode::kernel::interrupts::handlers::{PageFaultAction, map_user_page, page_fault_handler};
use rustcode::kernel::lazy_global::LazyGlobal;
use rustcode::kernel::mutex::Mutex;
use rustcode::kernel::smp::Locals;
use rustcode::kernel::user_mode::{
    Process, ProcessFrames, create_process, init, kill_current_process, switch_tasks,
};
use rustcode::kernel64::notex::Notex;

fn frames(base: u32) -> ProcessFrames {
    ProcessFrames {
        pd: vec![0; 1024],
        cr3: base,
        first_page: vec![0; 1024],
        first_frame: base + 0x1000,
        code_frame: base + 0x2000,
    }
}

fn system_pd() -> Vec<u32> {
    let mut pd = vec![0u32; 1024];
    pd[0] = 0x2003;
    pd[2] = 0x9003;
    pd[1023] = 0x1003;
    pd
}

fn raw_context(seed: u32) -> RawContext {
    RawContext {
        cr3: seed,
        _ds: 0x23,
        edi: seed + 1,
        esi: seed + 2,
        ebp: seed + 3,
        _int_esp: 0,
        ebx: seed + 4,
        edx: seed + 5,
        ecx: seed + 6,
        eax: seed + 7,
        eip: seed + 8,
        _cs: 0x1B,
        eflags: 0x202,
        esp: seed + 9,
    }
}

#[test]
fn process_creation() {
    let mut queue: VecDeque<Process> = VecDeque::new();
    create_process(&mut queue, 4, 0x50_0000, 100, &system_pd(), 0x0080_1000, frames(0x20_0000));
    assert_eq!(queue.len(), 1);
    let p = &queue[0];
    assert_eq!(p.id, 4);
    assert_eq!(p.code_addr, 0x50_0000);
    assert_eq!(p.code_len, 100);
    assert_eq!(p.pd[0], 0x2003);
    assert_eq!(p.pd[1], 0x20_1007);
    assert_eq!(p.pd[2], 0x9003);
    assert_eq!(p.pd[3], 0);
    assert_eq!(p.pages.len(), 1);
    assert_eq!(p.pages[0][0], 0x20_2007);
    assert_eq!(p.pages[0][1], 0);
    assert_eq!(p.context, Context::new(0x40_0000, 0x42_1000, 0x20_0000));
    assert_eq!(p.context.eip, 0x40_0000);
    assert_eq!(p.context.esp, 0x42_1000);
    assert_eq!(p.context.eax, 0);
}

#[test]
fn process_add_page() {
    let mut queue: VecDeque<Process> = VecDeque::new();
    create_process(&mut queue, 1, 0x50_0000, 10, &system_pd(), 0x1000, frames(0x20_0000));
    let mut p = queue.pop_front().unwrap();
    assert_eq!(p.add_page(vec![5; 1024], 0x77), (1, 0x77));
    assert_eq!(p.pages.len(), 2);
    assert_eq!(p.pages[1][0], 0);
    assert_eq!(p.pages[1][1], 5);
}

#[test]
fn user_mode_start_with_a_program() {
    let mut processes: Option<VecDeque<Process>> = None;
    let mut next_pid = 40;
    let running = init(
        &mut processes,
        &mut next_pid,
        Some((0x50_0000, 100)),
        &system_pd(),
        0x1000,
        frames(0x20_0000),
        frames(0x30_0000),
    );
    let running = running.unwrap();
    assert_eq!(running.id, 1);
    assert_eq!(running.context.cr3, 0x20_0000);
    let queue = processes.unwrap();
    assert_eq!(queue.len(), 1);
    assert_eq!(queue[0].id, 2);
    assert_eq!(queue[0].context.cr3, 0x30_0000);
    assert_eq!(next_pid, 3);
}

#[test]
fn user_mode_start_behind_queued_processes() {
    let mut processes: Option<VecDeque<Process>> = None;
    let mut next_pid = 0;
    let first = init(&mut processes, &mut next_pid, Some((0x50_0000, 10)), &system_pd(), 0x1000, frames(0x20_0000), frames(0x30_0000));
    assert_eq!(first.unwrap().id, 1);
    let second = init(&mut processes, &mut next_pid, Some((0x50_0000, 10)), &system_pd(), 0x1000, frames(0x40_0000), frames(0x50_0000));
    assert_eq!(second.unwrap().id, 2);
    let queue = processes.unwrap();
    let ids: Vec<u32> = queue.iter().map(|p| p.id).collect();
    assert_eq!(ids, vec![3, 4]);
    assert_eq!(next_pid, 5);
}

#[test]
fn user_mode_start_without_a_program() {
    let mut processes: Option<VecDeque<Process>> = None;
    let mut next_pid = 9;
    let running = init(&mut processes, &mut next_pid, None, &system_pd(), 0x1000, frames(0x20_0000), frames(0x30_0000));
    assert!(running.is_none());
    assert_eq!(processes.unwrap().len(), 0);
    assert_eq!(next_pid, 1);
}

#[test]
fn task_switch_round_robin() {
    let mut queue: VecDeque<Process> = VecDeque::new();
    create_process(&mut queue, 1, 0x50_0000, 10, &system_pd(), 0x1000, frames(0x20_0000));
    create_process(&mut queue, 2, 0x50_0000, 10, &system_pd(), 0x1000, frames(0x30_0000));
    let mut current = queue.pop_front();
    let mut ctx = raw_context(0x100);
    switch_tasks(&mut ctx, &mut current, &mut queue);
    assert_eq!(current.as_ref().unwrap().id, 2);
    assert_eq!(ctx.cr3, 0x30_0000);
    assert_eq!(ctx.eip, 0x40_0000);
    assert_eq!(ctx.eax, 0);
    assert_eq!(ctx._cs, 0x1B);
    assert_eq!(queue.len(), 1);
    assert_eq!(queue[0].id, 1);
    assert_eq!(queue[0].context.cr3, 0x100);
    assert_eq!(queue[0].context.eax, 0x107);
    assert_eq!(queue[0].context.esp, 0x109);
    switch_tasks(&mut ctx, &mut current, &mut queue);
    assert_eq!(current.as_ref().unwrap().id, 1);
    assert_eq!(ctx.eax, 0x107);
    assert_eq!(ctx.cr3, 0x100);
}

#[test]
fn task_switch_alone_resumes_the_same_process() {
    let mut queue: VecDeque<Process> = VecDeque::new();
    create_process(&mut queue, 7, 0x50_0000, 10, &system_pd(), 0x1000, frames(0x20_0000));
    let mut current = queue.pop_front();
    let mut ctx = raw_context(0x500);
    let before = ctx;
    switch_tasks(&mut ctx, &mut current, &mut queue);
    assert_eq!(current.as_ref().unwrap().id, 7);
    assert_eq!(ctx, before);
    assert!(queue.is_empty());
}

#[test]
fn killing_processes() {
    let mut queue: VecDeque<Process> = VecDeque::new();
    create_process(&mut queue, 1, 0x50_0000, 10, &system_pd(), 0x1000, frames(0x20_0000));
    create_process(&mut queue, 2, 0x50_0000, 10, &system_pd(), 0x1000, frames(0x30_0000));
    let mut current = queue.pop_front();
    let mut ctx = raw_context(0x100);
    assert!(kill_current_process(&mut ctx, &mut current, &mut queue));
    assert_eq!(current.as_ref().unwrap().id, 2);
    assert_eq!(ctx.cr3, 0x30_0000);
    assert!(queue.is_empty());
    let before = ctx;
    assert!(!kill_current_process(&mut ctx, &mut current, &mut queue));
    assert!(current.is_none());
    assert_eq!(ctx, before);
}

#[test]
fn system_call_return_code() {
    let mut ctx = raw_context(0);
    ctx.set_return_code(0);
    assert_eq!(ctx.eax, 0);
    assert_eq!(ctx.ebx, 4);
    let d = Context::default();
    assert_eq!(d.eip, 0);
    assert_eq!(d.cr3, 0);
}

#[test]
fn globals_and_locks() {
    let mut g: LazyGlobal<u32> = LazyGlobal::new();
    assert!(g.data.is_none());
    g.init(5);
    assert_eq!(*g.get(), 5);
    *g.get_mut() = 6;
    assert_eq!(*g.get(), 6);

    let m = Mutex::new(5u32);
    let mut held = m.lock();
    assert_eq!(*held.get(), 5);
    held.set(7);
    held.unlock();
    let held = m.lock();
    assert_eq!(*held.get(), 7);
    held.unlock();

    let mut n = Notex::new(5u32);
    {
        let mut h = n.lock();
        assert_eq!(*h.get(), 5);
        h.set(9);
    }
    assert_eq!(*n.lock().get(), 9);

    let l = Locals::default();
    assert_eq!(l.tss.esp0, 0);
    assert_eq!(l.tss._ss0, 0x10);
    assert!(l.process.is_none());
}

#[test]
fn write_system_call() {
    let mut ctx = raw_context(0x10);
    let ws = rustcode::kernel::interrupts::handlers::write_handler(b"ok", &mut ctx);
    assert_eq!(
        ws,
        vec![
            rustcode::hw::PortWrite { port: 0x3F8, value: b'o' },
            rustcode::hw::PortWrite { port: 0x3F8, value: b'k' },
        ]
    );
    assert_eq!(ctx.eax, 0);
    assert_eq!(ctx.ebx, 0x14);
}

#[test]
fn interrupted_privilege_level() {
    let mut ctx = raw_context(0);
    assert!(!ctx.was_kernel());
    ctx._cs = 0x08;
    assert!(ctx.was_kernel());
}

#[test]
fn user_page_faults_map_into_the_first_page_table() {
    let mut queue: VecDeque<Process> = VecDeque::new();
    create_process(&mut queue, 1, 0x50_0000, 2048, &system_pd(), 0x1000, frames(0x20_0000));
    let mut p = queue.pop_front().unwrap();
    let code = page_fault_handler(0x40_1010, 4, p.code_len);
    assert_eq!(code, PageFaultAction::UserCodePage { page: 1, code_offset: 0x1010 });
    map_user_page(&mut p, code, 0x51_000, vec![0; 1024], 0);
    assert_eq!(p.pages.len(), 1);
    assert_eq!(p.pages[0][1], 0x51_007);
    assert_eq!(p.pages[0][0], 0x20_2007);
    let fresh = page_fault_handler(0x40_5000, 6, p.code_len);
    assert_eq!(fresh, PageFaultAction::UserFreshPage { page: 5 });
    map_user_page(&mut p, fresh, 0, vec![9; 1024], 0x77_000);
    assert_eq!(p.pages.len(), 2);
    assert_eq!(p.pages[0][5], 0x77_007);
    assert_eq!(p.pages[1][0], 0);
    assert_eq!(p.pages[1][1], 9);
    map_user_page(&mut p, PageFaultAction::Halt, 1, vec![0; 1024], 2);
    assert_eq!(p.pages.len(), 2);
    assert_eq!(p.pages[0][5], 0x77_007);
}
