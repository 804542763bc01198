use redo::jobserver::{
    cheat_fds, cheatfds_value, end_rv, ensure_token_or_cheat, exit_token_message,
    forced_jobs_warning, jobserver_fds, makeflags_value, plan_setup, ChildEnd, Job, JobServer,
    SetupPlan, TokenAction, TokenEvent, TokenWaiter, BROKEN_AUTH_MESSAGE,
};

fn job(name: &str, pid: i32) -> Job {
    Job { name: name.to_string(), pid, rv: 0 }
}

#[test]
fn new_server_holds_one_token() {
    let js = JobServer::new();
    assert_eq!(js.mytokens, 1);
    assert_eq!(js.cheats, 0);
    assert!(js.has_token());
    assert!(!js.running());
}

#[test]
fn created_tokens_pay_back_cheats_first() {
    let mut js = JobServer::new();
    js.cheat(2);
    assert_eq!((js.mytokens, js.cheats), (3, 2));
    js.create_tokens(3);
    assert_eq!((js.mytokens, js.cheats), (4, 0));
}

#[test]
fn release_shares_only_what_is_not_owed() {
    let mut js = JobServer::new();
    js.create_tokens(4);
    js.cheat(1);
    assert_eq!((js.mytokens, js.cheats), (6, 1));
    let share = js.release(3);
    assert_eq!(share, 2);
    assert_eq!((js.mytokens, js.cheats), (3, 0));
    let share = js.release_except_mine();
    assert_eq!(share, 2);
    assert_eq!(js.mytokens, 1);
    let share = js.release_mine();
    assert_eq!(share, 1);
    assert_eq!(js.mytokens, 0);
}

#[test]
fn a_finished_job_returns_its_token() {
    let mut js = JobServer::new();
    js.start(50, job("a", 100));
    assert_eq!(js.mytokens, 0);
    assert!(js.running());
    let (j, share) = js.finish_job(50, false);
    assert_eq!(j.unwrap().pid, 100);
    assert_eq!(share, 0);
    assert_eq!(js.mytokens, 1);
    assert!(!js.running());
    let (none, share) = js.finish_job(50, false);
    assert!(none.is_none());
    assert_eq!(share, 0);
}

#[test]
fn a_job_that_returned_a_cheat_gives_no_token() {
    let mut js = JobServer::new();
    js.start(51, job("b", 7));
    let (j, share) = js.finish_job(51, true);
    assert_eq!(j.unwrap().name, "b");
    assert_eq!(share, 0);
    assert_eq!(js.mytokens, 0);
}

#[test]
fn starting_on_a_used_descriptor_replaces_the_job() {
    let mut js = JobServer::new();
    js.start(52, job("c", 1));
    js.take_token();
    js.start(52, job("d", 2));
    assert_eq!(js.jobs.len(), 1);
    assert_eq!(js.jobs[0].1.name, "d");
}

#[test]
fn forced_return_takes_back_every_token() {
    let mut js = JobServer::new();
    js.start(60, job("x", 1));
    js.take_token();
    js.start(61, job("y", 2));
    let (share, cheats) = js.force_return_tokens();
    assert_eq!((share, cheats), (1, 0));
    assert_eq!(js.mytokens, 1);
    assert!(!js.running());
}

#[test]
fn prepare_wait_gives_back_all_tokens_while_jobs_run() {
    let mut js = JobServer::new();
    js.create_tokens(2);
    let (share, running) = js.prepare_wait();
    assert_eq!((share, running), (2, false));
    assert_eq!(js.mytokens, 1);
    js.start(70, job("z", 3));
    js.create_tokens(1);
    let (share, running) = js.prepare_wait();
    assert_eq!((share, running), (1, true));
    assert_eq!(js.mytokens, 0);
}

#[test]
fn new_server_shares_all_but_one_token() {
    let mut js = JobServer::new();
    let share = js.start_new_server(4);
    assert_eq!(share, 3);
    assert_eq!(js.toplevel, 4);
    assert_eq!(js.mytokens, 1);
    let mut js2 = JobServer::new();
    assert_eq!(js2.start_new_server(0), 0);
    assert_eq!(js2.toplevel, 1);
}

#[test]
fn wait_set_and_finished_jobs() {
    let mut js = JobServer::new();
    js.start(80, job("a", 1));
    js.take_token();
    js.start(81, job("b", 2));
    assert_eq!(js.wait_fds(true, Some(100)), vec![80, 81, 100]);
    assert_eq!(js.wait_fds(false, Some(100)), vec![80, 81]);
    assert_eq!(js.finished(&vec![81, 100, 7], Some(100)), vec![81]);
}

#[test]
fn exit_codes_of_children() {
    assert_eq!(end_rv(ChildEnd::Exited(3)), 3);
    assert_eq!(end_rv(ChildEnd::Signaled(9)), -9);
    assert_eq!(end_rv(ChildEnd::Other), 201);
}

#[test]
fn makeflags_announce_the_jobserver() {
    let m = makeflags_value(100, 101);
    assert_eq!(m, " -j --jobserver-auth=100,101 --jobserver-fds=100,101");
    assert_eq!(jobserver_fds(&m), Some((100, 101)));
    assert_eq!(jobserver_fds("-j4 --jobserver-fds=3,4"), Some((3, 4)));
    assert_eq!(jobserver_fds("--jobserver-auth=0,4 --jobserver-fds=3,4"), None);
    assert_eq!(jobserver_fds("--jobserver-auth=fifo:/tmp/x"), None);
    assert_eq!(jobserver_fds("k"), None);
}

#[test]
fn cheat_pipe_names() {
    let v = cheatfds_value(102, 103);
    assert_eq!(v, "102,103");
    assert_eq!(cheat_fds(&v), Some((102, 103)));
    assert_eq!(cheat_fds(""), None);
    assert_eq!(cheat_fds("5"), None);
}

#[test]
fn setup_plans() {
    assert_eq!(plan_setup(None, true, 0), SetupPlan::NewServer { warn: false });
    assert_eq!(plan_setup(Some((3, 4)), false, 0), SetupPlan::Broken);
    assert_eq!(plan_setup(Some((3, 4)), true, 0), SetupPlan::Inherit(3, 4));
    assert_eq!(plan_setup(Some((3, 4)), true, 1), SetupPlan::NewServer { warn: false });
    assert_eq!(plan_setup(Some((3, 4)), true, 8), SetupPlan::NewServer { warn: true });
    assert_eq!(forced_jobs_warning(8), "warning: -j8 forced in sub-redo; starting new jobserver.");
    assert_eq!(BROKEN_AUTH_MESSAGE, "broken --jobserver-auth from parent process:");
}

#[test]
fn exit_token_check() {
    assert_eq!(exit_token_message(3, 4, 1), None);
    assert_eq!(
        exit_token_message(3, 2, 0),
        Some("on exit: expected 3 tokens; found 2-0".to_string())
    );
}

#[test]
fn waiting_for_a_token() {
    let mut js = JobServer::new();
    let mut w = TokenWaiter::new();
    assert_eq!(ensure_token_or_cheat(&mut js, &mut w, TokenEvent::Start), TokenAction::Done);

    js.start(90, job("a", 1));
    assert_eq!(
        ensure_token_or_cheat(&mut js, &mut w, TokenEvent::Start),
        TokenAction::WaitBlocking
    );
    assert_eq!(
        ensure_token_or_cheat(&mut js, &mut w, TokenEvent::Blocking { got_token: false }),
        TokenAction::WaitBlocking
    );
    assert_eq!(
        ensure_token_or_cheat(&mut js, &mut w, TokenEvent::Blocking { got_token: true }),
        TokenAction::Done
    );
    assert_eq!(js.mytokens, 1);
}

#[test]
fn timed_waits_back_off_then_cheat() {
    let mut js = JobServer::new();
    js.destroy_tokens(1);
    let mut w = TokenWaiter::new();
    assert_eq!(
        ensure_token_or_cheat(&mut js, &mut w, TokenEvent::Start),
        TokenAction::WaitTimed(10000)
    );
    assert_eq!(
        ensure_token_or_cheat(&mut js, &mut w, TokenEvent::Timed { got_token: false }),
        TokenAction::AskCheat
    );
    assert_eq!(w.backoff_us, 20000);
    assert_eq!(
        ensure_token_or_cheat(&mut js, &mut w, TokenEvent::Cheated(0)),
        TokenAction::WaitTimed(20000)
    );
    assert_eq!(
        ensure_token_or_cheat(&mut js, &mut w, TokenEvent::Cheated(1)),
        TokenAction::Done
    );
    assert_eq!((js.mytokens, js.cheats), (1, 1));
    w.backoff_us = 4_000_000;
    js.destroy_tokens(1);
    assert_eq!(
        ensure_token_or_cheat(&mut js, &mut w, TokenEvent::Start),
        TokenAction::WaitTimed(1_000_000)
    );
}

#[test]
fn returned_token_pays_back_borrowed_ones_first() {
    let mut js = JobServer::new();
    js.start(50, job("a", 1));
    js.cheat(2);
    let (j, share) = js.finish_job(50, false);
    assert!(j.is_some());
    assert_eq!((js.mytokens, js.cheats, share), (1, 0, 0));
}

#[test]
fn new_server_pays_back_borrowed_tokens_before_sharing() {
    let mut js = JobServer::new();
    js.cheat(3);
    let share = js.start_new_server(2);
    assert_eq!((js.mytokens, js.cheats, share), (1, 0, 1));
}
