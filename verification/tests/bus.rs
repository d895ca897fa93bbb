use fmcl_core::address::{
    AddressDirectory, register_address, remove_address_disconnected, unregister_address,
};
use fmcl_core::b64::decode_payload;
use fmcl_core::common::parse_command;
use fmcl_core::disk::Disk;
use fmcl_core::error::Error;
use fmcl_core::filesystem::Vfs;
use fmcl_core::function::plan_function;
use fmcl_core::json::{Json, json_eq};
use fmcl_core::mirror::MirrorDirectory;
use fmcl_core::service::{
    LogCommand, SettingCommand, check_number_text, error_envelope, frame_text, handle_address,
    handle_filesystem, handle_mirror, handle_task, join_tokens, parse_function_command,
    parse_logging_command, parse_setting_command, parse_u64,
};
use fmcl_core::strutil::u64_to_string;
use fmcl_core::task::TaskTree;

fn strings(v: &[&str]) -> Vec<String> {
    v.iter().map(|s| String::from(*s)).collect()
}

#[test]
fn tokenizer_splits_on_whitespace() {
    let args = parse_command(&String::from("mount_native /functions /abs/game"));
    assert_eq!(args, strings(&["mount_native", "/functions", "/abs/game"]));
}

#[test]
fn tokenizer_handles_quotes_and_escapes() {
    let args = parse_command(&String::from("run \"C:\\\\Program Files\\\\x\" plain"));
    assert_eq!(args, strings(&["run", "C:\\\\Program Files\\\\x", "plain"]));
    let args2 = parse_command(&String::from("say \"a \\\" b\""));
    assert_eq!(args2, strings(&["say", "a \" b"]));
    let args3 = parse_command(&String::from("a\"b c\"d"));
    assert_eq!(args3, strings(&["ab cd"]));
}

#[test]
fn tokenizer_empty_line_yields_no_tokens() {
    assert!(parse_command(&String::from("")).is_empty());
    assert!(parse_command(&String::from("   ")).is_empty());
}

#[test]
fn tokenizer_treats_whitespace_runs_as_one_boundary() {
    // Unquoted runs of non-whitespace are tokens, however wide the gaps.
    let args = parse_command(&String::from("a  b c"));
    assert_eq!(args, strings(&["a", "b", "c"]));
    let args2 = parse_command(&String::from("a  \"b c\""));
    assert_eq!(args2, strings(&["a", "b c"]));
    let args3 = parse_command(&String::from("  lead and trail  "));
    assert_eq!(args3, strings(&["lead", "and", "trail"]));
}

#[test]
fn decimal_rendering_and_parsing() {
    assert_eq!(u64_to_string(0), String::from("0"));
    assert_eq!(u64_to_string(1024), String::from("1024"));
    assert_eq!(u64_to_string(u64::MAX), String::from("18446744073709551615"));
    assert_eq!(parse_u64(&String::from("53421")), Some(53421));
    assert_eq!(parse_u64(&String::from("")), None);
    assert_eq!(parse_u64(&String::from("12x")), None);
    assert_eq!(parse_u64(&String::from("18446744073709551616")), None);
}

#[test]
fn number_syntax_check() {
    assert!(check_number_text(&String::from("0.5")));
    assert!(check_number_text(&String::from("-12e+3")));
    assert!(check_number_text(&String::from("7")));
    assert!(!check_number_text(&String::from("")));
    assert!(!check_number_text(&String::from("half")));
    assert!(!check_number_text(&String::from("1.")));
    // A JSON number has no leading plus sign.
    assert!(!check_number_text(&String::from("+5")));
}

#[test]
fn base64_payload_round_trip() {
    // "aGVsbG8=" is the standard encoding of "hello"; a wrapper that
    // handed its argument back unchanged would fail this.
    let decoded = decode_payload(&String::from("aGVsbG8=")).unwrap();
    assert_eq!(decoded, String::from("hello"));
    match decode_payload(&String::from("!!!")) {
        Err(Error::InvalidBase64(t)) => assert_eq!(t, String::from("!!!")),
        _ => panic!("expected InvalidBase64"),
    }
}

#[test]
fn frame_text_stops_at_nul() {
    let mut buf = Vec::new();
    buf.extend_from_slice(b"connection-7");
    buf.push(0u8);
    buf.extend_from_slice(b"junk");
    assert_eq!(frame_text(&buf), String::from("connection-7"));
    assert_eq!(frame_text(&b"bare".to_vec()), String::from("bare"));
}

#[test]
fn address_service_register_get_sweep() {
    // register("filesystem","127.0.0.1","53421"); get returns that
    // triple; after the port stops answering, one sweep removes it and a
    // later get reports NotFound.
    let mut dir = AddressDirectory::new();
    register_address(
        &mut dir,
        &String::from("address"),
        &String::from("127.0.0.1"),
        &String::from("1024"),
    );
    let args = parse_command(&String::from("register filesystem 127.0.0.1 53421"));
    let reply = handle_address(&mut dir, &args).unwrap().unwrap();
    assert!(json_eq(&reply, &Json::Obj(vec![])));
    let got = handle_address(&mut dir, &parse_command(&String::from("get filesystem")))
        .unwrap()
        .unwrap();
    let expected = Json::Obj(vec![
        (String::from("name"), Json::Str(String::from("filesystem"))),
        (String::from("ip"), Json::Str(String::from("127.0.0.1"))),
        (String::from("port"), Json::Str(String::from("53421"))),
    ]);
    assert!(json_eq(&got, &expected));
    // The sweep probes every entry but the directory's own; the caller
    // reports which probes failed.
    let candidates = dir.sweep_candidates(&String::from("address"));
    assert_eq!(
        candidates,
        vec![(String::from("filesystem"), String::from("53421"))]
    );
    remove_address_disconnected(&mut dir, &strings(&["filesystem"]));
    match handle_address(&mut dir, &parse_command(&String::from("get filesystem"))) {
        Err(Error::AddressNotExists(n)) => assert_eq!(n, String::from("filesystem")),
        _ => panic!("expected AddressNotExists"),
    }
    assert!(dir.get(&String::from("address")).is_some());
}

#[test]
fn address_service_refuses_wrong_arity() {
    let mut dir = AddressDirectory::new();
    let e = handle_address(&mut dir, &parse_command(&String::from("register onlyname")))
        .unwrap_err();
    assert_eq!(e.message(), String::from("Invalid args: register onlyname"));
}

#[test]
fn reregistering_overwrites_endpoint() {
    let mut dir = AddressDirectory::new();
    register_address(
        &mut dir,
        &String::from("task"),
        &String::from("127.0.0.1"),
        &String::from("4000"),
    );
    register_address(
        &mut dir,
        &String::from("task"),
        &String::from("127.0.0.1"),
        &String::from("4001"),
    );
    assert_eq!(
        dir.get(&String::from("task")),
        Some((String::from("127.0.0.1"), String::from("4001")))
    );
    unregister_address(&mut dir, &String::from("task"));
    assert!(dir.get(&String::from("task")).is_none());
}

#[test]
fn mirror_service_registers_alias() {
    let mut mir = MirrorDirectory::new();
    let mut addrs = AddressDirectory::new();
    let args = parse_command(&String::from("register bmcl official 8080"));
    assert!(handle_mirror(&mut mir, &mut addrs, &args).unwrap().is_none());
    assert_eq!(
        mir.get(&String::from("bmcl")),
        Some((String::from("official"), String::from("8080")))
    );
    assert_eq!(
        addrs.get(&String::from("mirrorbmclofficial8080")),
        Some((String::from("127.0.0.1"), String::from("8080")))
    );
    let args2 = parse_command(&String::from("unregister bmcl"));
    handle_mirror(&mut mir, &mut addrs, &args2).unwrap();
    assert!(mir.get(&String::from("bmcl")).is_none());
    assert!(addrs.get(&String::from("mirrorbmclofficial8080")).is_none());
    // Unknown verbs are ignored, not answered.
    assert!(handle_mirror(&mut mir, &mut addrs, &parse_command(&String::from("poke")))
        .unwrap()
        .is_none());
}

#[test]
fn task_service_dispatch() {
    let mut tasks = TaskTree::new();
    let created = handle_task(&mut tasks, &parse_command(&String::from("create install 0")))
        .unwrap()
        .unwrap();
    let expected = Json::Obj(vec![(String::from("id"), Json::Num(String::from("1")))]);
    assert!(json_eq(&created, &expected));
    handle_task(&mut tasks, &parse_command(&String::from("modify 1 progress 0.5")))
        .unwrap();
    let got = handle_task(&mut tasks, &parse_command(&String::from("get 1")))
        .unwrap()
        .unwrap();
    let expected_task = Json::Obj(vec![
        (String::from("id"), Json::Num(String::from("1"))),
        (String::from("name"), Json::Str(String::from("install"))),
        (String::from("progress"), Json::Num(String::from("0.5"))),
        (String::from("current_work"), Json::Str(String::from(""))),
        (String::from("parent"), Json::Num(String::from("0"))),
        (String::from("children"), Json::Arr(vec![])),
    ]);
    assert!(json_eq(&got, &expected_task));
    let e = handle_task(&mut tasks, &parse_command(&String::from("modify 1 progress fast")))
        .unwrap_err();
    assert!(matches!(e, Error::InvalidArgs(_)));
    let e2 = handle_task(&mut tasks, &parse_command(&String::from("get 9")))
        .unwrap_err();
    assert!(matches!(e2, Error::TaskNotExists(9)));
}

#[test]
fn filesystem_service_dispatch() {
    let mut disk = Disk::new();
    disk.add_dir(String::from("/abs"), strings(&["one"]));
    let mut vfs = Vfs::new(String::from("/wd"));
    let (r, mk) = handle_filesystem(
        &mut vfs,
        &disk,
        &parse_command(&String::from("mount_native /m /abs")),
    );
    assert!(json_eq(&r.unwrap().unwrap(), &Json::Obj(vec![])));
    assert!(mk.is_none());
    let (r2, _) = handle_filesystem(
        &mut vfs,
        &disk,
        &parse_command(&String::from("listdir /m")),
    );
    let expected = Json::Obj(vec![(
        String::from("names"),
        Json::Arr(vec![Json::Str(String::from("one"))]),
    )]);
    assert!(json_eq(&r2.unwrap().unwrap(), &expected));
    let (r3, mk3) = handle_filesystem(
        &mut vfs,
        &disk,
        &parse_command(&String::from("makedirs /fresh")),
    );
    assert!(r3.unwrap().is_some());
    assert_eq!(mk3, Some((String::from("/wd/fresh"), false)));
    let (r4, _) = handle_filesystem(
        &mut vfs,
        &disk,
        &parse_command(&String::from("hexdump /m")),
    );
    assert!(r4.unwrap().is_none());
}

#[test]
fn setting_commands_decode_their_payload() {
    // "eyJhIjoxfQ==" is the standard encoding of "{\"a\":1}".
    let args = parse_command(&String::from("add_or_update game.dirs eyJhIjoxfQ=="));
    match parse_setting_command(&args).unwrap() {
        Some(SettingCommand::AddOrUpdate(key, text)) => {
            assert_eq!(key, String::from("game.dirs"));
            assert_eq!(text, String::from("{\"a\":1}"));
        }
        _ => panic!("expected AddOrUpdate"),
    }
    match parse_setting_command(&parse_command(&String::from("get game"))).unwrap() {
        Some(SettingCommand::Get(key)) => assert_eq!(key, String::from("game")),
        _ => panic!("expected Get"),
    }
    assert!(parse_setting_command(&parse_command(&String::from("frobnicate x")))
        .unwrap()
        .is_none());
    assert!(matches!(
        parse_setting_command(&parse_command(&String::from("add_or_update k !!!"))),
        Err(Error::InvalidBase64(_))
    ));
}

#[test]
fn logging_and_launch_commands() {
    let args = parse_command(&String::from("info worker aGVsbG8="));
    let LogCommand { level, thread_name, message } = parse_logging_command(&args).unwrap();
    assert_eq!(level, String::from("info"));
    assert_eq!(thread_name, String::from("worker"));
    assert_eq!(message, String::from("hello"));
    assert!(matches!(
        parse_logging_command(&parse_command(&String::from("info worker"))),
        Err(Error::InvalidArgs(_))
    ));
    let run = parse_function_command(&parse_command(&String::from("run aGVsbG8="))).unwrap();
    assert_eq!(run, Some(String::from("hello")));
    let other = parse_function_command(&parse_command(&String::from("getall_running"))).unwrap();
    assert!(other.is_none());
}

#[test]
fn invalid_json_message() {
    let e = Error::InvalidJson(String::from("expected value"));
    assert_eq!(e.message(), String::from("Invalid JSON: expected value"));
}

#[test]
fn error_envelope_carries_message() {
    let env = error_envelope(&Error::ProgramNotFound);
    let expected = Json::Obj(vec![(
        String::from("error_msg"),
        Json::Str(String::from("Program not found")),
    )]);
    assert!(json_eq(&env, &expected));
}

#[test]
fn launch_plans_follow_the_template() {
    let command = vec![
        (String::from("template"), Json::Str(String::from("python"))),
        (
            String::from("args"),
            Json::Arr(vec![Json::Str(String::from("--fast")), Json::Num(String::from("3"))]),
        ),
        (String::from("cwd"), Json::Str(String::from("/game"))),
    ];
    let plan = plan_function(&command, &String::from("/wd")).unwrap();
    assert_eq!(plan.program, String::from("python"));
    assert_eq!(plan.cwd, String::from("/game"));
    assert_eq!(plan.args, strings(&["__main__.py", "--fast"]));
    assert_eq!(
        plan.envs,
        vec![(String::from("PYTHONPATH"), String::from("/wd"))]
    );
    assert!(!plan.template_warning);
    let bare: Vec<(String, Json)> = vec![(String::from("cwd"), Json::Str(String::from("/g")))];
    assert!(matches!(
        plan_function(&bare, &String::from("/wd")),
        Err(Error::ProgramNotFound)
    ));
}

#[test]
fn join_tokens_spaces() {
    assert_eq!(join_tokens(&strings(&["a", "b", "c"])), String::from("a b c"));
    assert_eq!(join_tokens(&strings(&[])), String::from(""));
}
