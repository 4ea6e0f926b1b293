//! Priming, exports, installation and copies of sessions.

use cx::cli::InstallArgs;
use cx::cli::PrimeRunArgs;
use cx::cli::PrimeScheduleArgs;
use cx::doubles::Double;
use cx::install::install;
use cx::install::install_dest;
use cx::install::install_dir;
use cx::install::install_line;
use cx::install::InstallStep;
use cx::json::parse_json;
use cx::json::render_json;
use cx::paths::ManagerPaths;
use cx::prime::add_rollout_hour_scores;
use cx::prime::add_state_db_hour_scores;
use cx::prime::build_plan;
use cx::prime::choose_slots;
use cx::prime::command_outcome;
use cx::prime::cut_text;
use cx::prime::history_cutoff;
use cx::prime::launch_agent_path;
use cx::prime::launch_agent_text;
use cx::prime::launchctl_failure;
use cx::prime::load_config;
use cx::prime::load_state;
use cx::prime::normalize_hour;
use cx::prime::prime_candidate;
use cx::prime::prime_codex_args;
use cx::prime::prime_minutes_before;
use cx::prime::prime_slots;
use cx::prime::print_plan;
use cx::prime::print_run_report;
use cx::prime::remaining_percent;
use cx::prime::run_prime_check;
use cx::prime::run_prime_slot;
use cx::prime::schedule_times_from_scores;
use cx::prime::state_after;
use cx::prime::state_db_paths;
use cx::prime::validate_prompt;
use cx::prime::wait_with_timeout;
use cx::prime::EffectiveRunConfig;
use cx::prime::PrimeConfig;
use cx::prime::PrimeHourScore;
use cx::prime::RolloutRow;
use cx::prime::ThreadRow;
use cx::prime::WaitStep;
use cx::protocol_export::export;
use cx::protocol_export::export_outcome;
use cx::protocol_export::ExportFormats;
use cx::protocol_export::ProtocolExportArgs;
use cx::resume::looks_like_uuid;
use cx::resume::new_uuid_v4;
use cx::resume::prepare_cross_slot_resume;
use cx::resume::scrubbed_path;
use cx::resume::source_slots;
use cx::resume::target_model_provider;
use cx::resume::CalendarTime;
use cx::resume::ExplicitResumeId;
use cx::resume::ResumeSeen;
use cx::resume::ResumeStep;
use cx::session_scrub::scrub_rollout;
use cx::session_scrub::scrub_value;
use cx::usage::SlotResult;
use cx::usage::SlotStatus;

fn percent(value: i64) -> Double {
    Double { bits: (value as f64).to_bits() }
}

fn paths() -> ManagerPaths {
    ManagerPaths::from_roots("/root/codex", "/root/profile-manager")
}

fn words(items: &[&str]) -> Vec<String> {
    items.iter().map(|item| item.to_string()).collect()
}

fn run_args() -> PrimeRunArgs {
    PrimeRunArgs {
        manager_dir: None,
        target: None,
        slots: Vec::new(),
        max_slots: None,
        codex_bin: None,
        model: None,
        prompt: None,
        verify_timeout: None,
        max_requests: None,
        force: false,
        dry_run: false,
        json: false,
    }
}

fn run_config(args: &PrimeRunArgs) -> EffectiveRunConfig {
    EffectiveRunConfig::from_config_and_args(&None, args).expect("a configuration")
}

#[test]
fn schedule_time_wraps_around_midnight() {
    assert_eq!(prime_minutes_before(1, 210), 21 * 60 + 30);
    assert_eq!(prime_minutes_before(10, 210), 6 * 60 + 30);
}

fn scores() -> Vec<PrimeHourScore> {
    vec![
        PrimeHourScore { hour: 10, score: percent(100), start_tokens: 100, ..PrimeHourScore::default() },
        PrimeHourScore { hour: 20, score: percent(80), start_tokens: 80, ..PrimeHourScore::default() },
        PrimeHourScore { hour: 4, score: percent(1), start_tokens: 1, ..PrimeHourScore::default() },
    ]
}

#[test]
fn schedule_uses_highest_scoring_hours() {
    let schedule = schedule_times_from_scores(&scores(), 210, 2, 10);

    assert_eq!(schedule.len(), 2);
    assert_eq!(
        schedule
            .iter()
            .map(|item| (item.hour, item.minute, item.source_hour))
            .collect::<Vec<_>>(),
        vec![(6, 30, 10), (16, 30, 20)]
    );
}

#[test]
fn light_hours_are_planned_where_there_are_no_heavy_ones() {
    let schedule = schedule_times_from_scores(&scores(), 60, 1, 1_000);
    assert_eq!(schedule.len(), 1);
    assert_eq!(schedule[0].hour, 9);
}

#[test]
fn hours_are_scored_by_threads_and_use() {
    let threads = vec![
        ThreadRow { id: "a".to_string(), hour: 9, tokens: 100 },
        ThreadRow { id: "a".to_string(), hour: 10, tokens: 500 },
        ThreadRow { id: "b".to_string(), hour: 9, tokens: -5 },
        ThreadRow { id: "c".to_string(), hour: 24, tokens: 5 },
    ];
    let mut hours = add_state_db_hour_scores(&threads);
    add_rollout_hour_scores(&mut hours, &vec![RolloutRow { hour: 9, tokens: 10, samples: 2 }]);
    let nine = hours[9].expect("known");
    assert_eq!(nine.threads, 2);
    assert_eq!(nine.start_tokens, 100);
    assert_eq!(nine.rollout_tokens, 10);
    assert_eq!(f64::from_bits(nine.score.bits), 100.0 + 10.0 * 0.35);
    assert!(hours[10].is_none());
    assert_eq!(normalize_hour(24), None);
    assert_eq!(history_cutoff(1_000_000, 0), 1_000_000 - 86_400);
}

#[test]
fn plans_are_printed() {
    let args = PrimeScheduleArgs {
        manager_dir: None,
        days: 0,
        lead_minutes: 210,
        max_times: 0,
        min_tokens: 1,
    };
    let threads = vec![ThreadRow { id: "a".to_string(), hour: 10, tokens: 100 }];
    let plan = build_plan(
        &args,
        words(&["/root/codex/state_5.sqlite"]),
        &threads,
        None,
        &vec![RolloutRow { hour: 10, tokens: 3, samples: 1 }],
    );
    assert_eq!(
        print_plan(&plan),
        vec![
            "prime plan: 1d history, lead 210m, 1 schedule(s)",
            "source state dbs: 1",
            "",
            "- 06:30  from heavy hour 10:00  score 101  start 100  rollout 3",
        ]
    );
    let agent = launch_agent_text(&paths(), "/bin/c&x", &plan.schedules, "/home/user");
    assert!(agent.contains("<string>/bin/c&amp;x</string>"));
    assert!(agent.contains("<key>Hour</key><integer>6</integer>"));
    assert!(agent.contains("<key>Minute</key><integer>30</integer>"));
    assert_eq!(
        launch_agent_path("/home/user"),
        "/home/user/Library/LaunchAgents/dev.xiaotian.cx.prime.plist"
    );
}

#[test]
fn active_window_is_not_a_candidate_without_force() {
    let now = 1_000;
    let mut result = SlotResult::new("slot", 0, SlotStatus::Available, percent(90), "usage");
    result.five_hour_used = Some(percent(2));
    result.five_hour_refresh_at = Some(now + 3_600);
    result.weekly_used = Some(percent(10));
    let refresh = Some("now".to_string());

    let reason = prime_candidate(&result, now, percent(5), false, &refresh).unwrap_err();

    assert_eq!(reason, "5h window already active (used 2.0%, refresh now)");
    assert!(prime_candidate(&result, now, percent(5), true, &refresh).is_ok());
}

#[test]
fn full_length_one_percent_window_is_still_primeable() {
    let now = 1_000;
    let mut result = SlotResult::new("slot", 0, SlotStatus::Available, percent(99), "usage");
    result.five_hour_used = Some(percent(1));
    result.five_hour_refresh_at = Some(now + 5 * 60 * 60);
    result.weekly_used = Some(percent(10));

    assert!(prime_candidate(&result, now, percent(5), false, &None).is_ok());
}

#[test]
fn slots_with_little_left_are_skipped() {
    let mut result = SlotResult::new("slot", 0, SlotStatus::Available, percent(0), "usage");
    result.weekly_used = Some(percent(98));
    assert_eq!(
        prime_candidate(&result, 0, percent(5), true, &None),
        Err("weekly remaining 2.0% below 5.0%".to_string())
    );
    result.stale = true;
    assert_eq!(
        prime_candidate(&result, 0, percent(5), false, &None),
        Err("stale usage cache".to_string())
    );
    result.status = SlotStatus::Exhausted;
    assert_eq!(
        prime_candidate(&result, 0, percent(5), true, &None),
        Err("status exhausted".to_string())
    );
    assert_eq!(remaining_percent(None), percent(100));
    assert_eq!(remaining_percent(Some(percent(120))), percent(0));
}

#[test]
fn dry_runs_say_what_would_be_primed() {
    let mut low = SlotResult::new("low", 0, SlotStatus::Available, percent(0), "");
    low.weekly_used = Some(percent(60));
    let mut high = SlotResult::new("high", 1, SlotStatus::Available, percent(0), "");
    high.weekly_used = Some(percent(10));
    let off = SlotResult::new("off", 2, SlotStatus::NeedsLogin, percent(0), "");
    let results = vec![low, high, off];
    let mut args = run_args();
    args.max_slots = Some(1);
    let config = run_config(&args);
    let choice = choose_slots(&results, 1_000, &config, false, &vec![None, None, None]);
    assert_eq!(choice.candidates, 2);
    assert_eq!(choice.selected.len(), 1);
    let report = run_prime_check(&results, choice, 1_000, &config, false, true, Vec::new());
    assert_eq!(
        print_run_report(&report),
        vec![
            "prime run: checked 3 slot(s), primed 1 slot(s) (dry run)",
            "- high  ok  0ms  would prime; weekly remaining 90.0%",
            "skipped:",
            "- off  status needs_login",
        ]
    );
    let state = state_after(&None, report, 1_005);
    assert_eq!(state.last_successful_primes.len(), 0);
    assert_eq!(state.updated_at, 1_005);
}

#[test]
fn primes_are_remembered_for_ten_hours() {
    let config = run_config(&run_args());
    let results = vec![SlotResult::new("a", 0, SlotStatus::Available, percent(0), "")];
    let choice = choose_slots(&results, 0, &config, false, &vec![None]);
    let outcome = command_outcome(true, Some(0), b"");
    let attempt = run_prime_slot("a", &None, Ok(outcome), 12);
    let report = run_prime_check(&results, choice, 100_000, &config, false, false, vec![attempt]);
    let first = state_after(&None, report, 100_000);
    assert_eq!(first.last_successful_primes.get("a"), Some(&100_000));
    let none = choose_slots(&Vec::new(), 0, &config, false, &Vec::new());
    let later =
        run_prime_check(&Vec::new(), none, 136_001, &config, false, false, Vec::new());
    let second = state_after(&Some(first), later, 136_001);
    assert!(second.last_successful_primes.get("a").is_none());
    let mut odd = second;
    odd.schema_version = 1;
    assert!(load_state(Some(odd)).is_none());
}

#[test]
fn failures_are_noted_by_their_last_words() {
    let outcome = command_outcome(false, Some(1), b"first\nlast words\n\n");
    assert_eq!(outcome.note, "codex exec failed: last words");
    assert_eq!(command_outcome(false, None, b" \n").note, "codex exec failed: codex exec failed");
    assert_eq!(cut_text("abcdef", 5), "ab...");
    let broken = run_prime_slot("a", &None, Err("no codex".to_string()), 3);
    assert!(!broken.success);
    assert_eq!(broken.note, "no codex");
    assert!(matches!(wait_with_timeout(false, 89_999), WaitStep::Sleep { .. }));
    match wait_with_timeout(false, 90_000) {
        WaitStep::Kill { message } => {
            assert_eq!(message, "codex prime command timed out after 90s");
        }
        _ => panic!("no end"),
    }
    assert_eq!(
        launchctl_failure(&words(&["enable", "x"]), b" denied\n"),
        "launchctl enable x failed: denied"
    );
}

#[test]
fn runs_follow_settings_and_arguments() {
    let mut args = run_args();
    args.slots = words(&["a"]);
    args.model = Some("gpt".to_string());
    let config = run_config(&args);
    assert_eq!(config.prompt, "Reply exactly: hi");
    assert_eq!(config.timeout, percent(2));
    assert_eq!(prime_slots(&config, &None, &words(&["b"])), Ok(words(&["a"])));
    let codex = prime_codex_args(&config);
    assert_eq!(codex[..2], ["-m", "gpt"]);
    assert_eq!(codex.last().map(String::as_str), Some("Reply exactly: hi"));
    let bare = run_config(&run_args());
    assert_eq!(prime_slots(&bare, &None, &words(&["b"])), Ok(words(&["b"])));
    assert!(prime_slots(&bare, &None, &Vec::new()).is_err());
    assert_eq!(validate_prompt("  "), Err("prime prompt cannot be empty".to_string()));
    assert!(validate_prompt(&"x".repeat(2_001)).is_err());
    assert_eq!(validate_prompt(" hi "), Ok("hi".to_string()));
}

#[test]
fn old_settings_lose_the_old_limit() {
    let config = |schema_version: u64, max_slots: Option<usize>| PrimeConfig {
        schema_version,
        installed_at: 0,
        days: 1,
        lead_minutes: 1,
        max_times: 1,
        min_tokens: 1,
        schedules: Vec::new(),
        target: None,
        slots: Vec::new(),
        max_slots,
        codex_bin: None,
        model: None,
        prompt: "p".to_string(),
        timeout: percent(1),
        jobs: 1,
        retries: 1,
        min_weekly_remaining: percent(0),
    };
    assert_eq!(load_config(Some(config(1, Some(3)))).expect("read").max_slots, None);
    assert_eq!(load_config(Some(config(2, Some(3)))).expect("read").max_slots, Some(3));
    assert!(load_config(Some(config(3, None))).is_none());
}

#[test]
fn databases_are_listed_once_and_in_order() {
    let listed = state_db_paths(
        &paths(),
        &words(&["/root/profile-manager/slots/b", "/root/profile-manager/slots/a"]),
    );
    assert_eq!(
        listed,
        vec![
            "/root/codex/state_5.sqlite",
            "/root/profile-manager/slots/a/home/sqlite/state_5.sqlite",
            "/root/profile-manager/slots/b/home/sqlite/state_5.sqlite",
        ]
    );
}

#[test]
fn export_formats_default_to_both() {
    assert_eq!(
        ExportFormats::from_args(false, false),
        ExportFormats { json_schema: true, typescript: true }
    );
}

#[test]
fn export_formats_respect_explicit_subset() {
    assert_eq!(
        ExportFormats::from_args(true, false),
        ExportFormats { json_schema: true, typescript: false }
    );
    assert_eq!(
        ExportFormats::from_args(false, true),
        ExportFormats { json_schema: false, typescript: true }
    );
}

#[test]
fn exports_run_the_generators() {
    let args = ProtocolExportArgs {
        out: "/out".to_string(),
        codex_bin: None,
        json_schema: false,
        typescript: true,
        experimental: true,
    };
    let runs = export(&args);
    assert_eq!(runs.len(), 1);
    assert_eq!(
        runs[0].args,
        words(&["app-server", "generate-ts", "--out", "/out/typescript", "--experimental"])
    );
    assert_eq!(
        export_outcome(&runs[0], true, ""),
        Ok("wrote generate-ts: /out/typescript".to_string())
    );
    assert_eq!(
        export_outcome(&runs[0], false, "exit status: 2"),
        Err("codex app-server generate-ts exited with exit status: 2".to_string())
    );
}

#[test]
fn installing_replaces_nothing_unasked() {
    let args = InstallArgs { bin_dir: None, force: false };
    let dest = install_dest(&install_dir(&args, "/home/user"));
    assert_eq!(dest, "/home/user/.local/bin/cx");
    assert_eq!(install(&dest, true, true, false), Ok(InstallStep::Keep));
    assert_eq!(install(&dest, false, false, false), Ok(InstallStep::Copy));
    assert_eq!(
        install(&dest, false, true, false),
        Err("/home/user/.local/bin/cx already exists; pass --force to replace it".to_string())
    );
    assert_eq!(install_line(InstallStep::Copy, &dest), "installed: /home/user/.local/bin/cx");
}

#[test]
fn same_slot_resume_is_not_scrubbed() {
    let id = "019efd2e-bf53-72a3-bd64-40c466dacb8a";

    match prepare_cross_slot_resume(id, ResumeSeen::Slot { has: true }) {
        ResumeStep::Ready(prepared) => {
            assert_eq!(prepared.session_id, id);
            assert!(!prepared.scrubbed);
        }
        _ => panic!("the session is there"),
    }
}

#[test]
fn sessions_are_looked_for_in_order() {
    let id = "019efd2e-bf53-72a3-bd64-40c466dacb8a";
    assert!(matches!(prepare_cross_slot_resume("latest", ResumeSeen::Nothing), ResumeStep::Ready(_)));
    assert!(matches!(prepare_cross_slot_resume(id, ResumeSeen::Nothing), ResumeStep::AskSlot));
    assert!(matches!(
        prepare_cross_slot_resume(id, ResumeSeen::Slot { has: false }),
        ResumeStep::AskOthers
    ));
    assert!(matches!(
        prepare_cross_slot_resume(id, ResumeSeen::Others { have: true }),
        ResumeStep::Copy
    ));
    assert_eq!(source_slots(&words(&["ollama", "dia4", "alpha"]), "dia4"), ["alpha", "default", "ollama"]);
    assert_eq!(ExplicitResumeId::parse("x").as_str(), "x");
}

#[test]
fn cross_slot_resume_writes_scrubbed_rollout_and_target_db_row() {
    let old_id = "019efd2e-bf53-72a3-bd64-40c466dacb8a";
    let new_id = new_uuid_v4([7; 16]);
    let provider = target_model_provider(&None);
    let recorded = format!(
        "{}\n{}\n{}\n{}\n",
        format!(
            "{{\"type\":\"session_meta\",\"payload\":{{\"id\":\"{old_id}\",\"session_id\":\"{old_id}\",\"timestamp\":\"2026-07-05T00:00:00Z\",\"cwd\":\"/tmp/project\",\"source\":\"cli\",\"model_provider\":\"ollama\"}}}}"
        ),
        "{\"type\":\"response_item\",\"payload\":{\"type\":\"reasoning\",\"summary\":[],\"encrypted_content\":\"bad\"}}",
        "{\"type\":\"response_item\",\"payload\":{\"type\":\"agent_message\",\"author\":\"a\",\"recipient\":\"b\",\"content\":[{\"type\":\"encrypted_content\",\"encrypted_content\":\"bad\"},{\"type\":\"input_text\",\"text\":\"keep\"}]}}",
        "{\"type\":\"response_item\",\"payload\":{\"type\":\"compaction_summary\",\"encrypted_content\":\"bad\"}}",
    );

    let scrubbed = scrub_rollout(&recorded, old_id, &new_id, &provider).expect("readable");

    assert_ne!(new_id, old_id);
    assert_eq!(provider, "openai");
    assert!(!scrubbed.contains("encrypted_content"));
    assert!(scrubbed.contains(&new_id));
    assert!(!scrubbed.contains(old_id));
    assert!(scrubbed.contains("\"input_text\""));
    assert!(!scrubbed.contains("\"reasoning\""));
    assert!(!scrubbed.contains("compaction_summary"));
    assert!(scrubbed.contains("\"model_provider\":\"openai\""));
    assert_eq!(scrubbed.lines().count(), 2);
}

#[test]
fn broken_recordings_name_the_line() {
    let (line, reason) = scrub_rollout("{}\n\nno json\n", "a", "b", "c").unwrap_err();
    assert_eq!(line, 3);
    assert_eq!(reason, serde_json::from_str::<serde_json::Value>("no json").unwrap_err().to_string());
}

#[test]
fn scrubbing_reaches_every_depth() {
    let value = parse_json(
        "{\"a\":[{\"type\":\"encrypted_content\"},{\"b\":{\"encrypted_content\":1,\"c\":2}}]}",
    )
    .expect("JSON");
    assert_eq!(render_json(&scrub_value(&value)), "{\"a\":[{\"b\":{\"c\":2}}]}");
}

#[test]
fn new_names_are_of_the_fourth_version() {
    let id = new_uuid_v4([0xff; 16]);
    assert_eq!(id, "ffffffff-ffff-4fff-bfff-ffffffffffff");
    assert!(looks_like_uuid(&id));
    assert!(!looks_like_uuid("ffffffff-ffff-4fff-bfff-fffffffffff"));
    let now = CalendarTime { year: 2026, month: 7, day: 5, hour: 1, minute: 2, second: 3 };
    assert_eq!(
        scrubbed_path("/home/slot", now, "ID"),
        "/home/slot/cx-scrubbed-sessions/2026/07/05/rollout-2026-07-05T01-02-03-ID.jsonl"
    );
}
