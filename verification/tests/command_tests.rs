use taterboard::commands::{
    admin, blacklist, generate_csv, handle_commands, handle_slash_command, help_text,
    is_admin_user, set_pin_channel, set_potato, set_threshold, unadmin, unblacklist,
    validate_symbol, CommandEffect,
};
use taterboard::ledger::LedgerEntity;
use taterboard::maps::CountMap;

fn args(values: &[&str]) -> Vec<String> {
    values.iter().map(|s| s.to_string()).collect()
}

#[test]
fn set_pin_channel_blacklists_the_channel_too() {
    let mut entity = LedgerEntity::new();
    let reply = set_pin_channel(&args(&["123"]), &mut entity.config).unwrap();
    assert_eq!(entity.config.pin_channel, 123);
    assert!(entity.config.blacklisted_channels.contains(&123));
    assert_eq!(reply, "Set pins channel to `<#123>` and added it to the blacklist");
    // Doing it again reports the existing blacklisting.
    let reply = set_pin_channel(&args(&["123"]), &mut entity.config).unwrap();
    assert_eq!(reply, "Set pins channel to `<#123>`, and it was already blacklisted");
    assert_eq!(entity.config.blacklisted_channels, vec![123]);
}

#[test]
fn set_pin_channel_wants_an_argument() {
    let mut entity = LedgerEntity::new();
    let err = set_pin_channel(&args(&[]), &mut entity.config).unwrap_err();
    assert_eq!(err, "Not enough arguments (1 expected)");
    let err = set_pin_channel(&args(&["abc"]), &mut entity.config).unwrap_err();
    assert_eq!(err, "`abc` is not a number");
    assert_eq!(entity.config.pin_channel, 0);
}

#[test]
fn set_threshold_changes_the_threshold() {
    let mut entity = LedgerEntity::new();
    let reply = set_threshold(&args(&["12"]), &mut entity.config).unwrap();
    assert_eq!(reply, "Threshold changed to 12");
    assert_eq!(entity.config.threshold, 12);
}

#[test]
fn set_threshold_rejects_zero() {
    let mut entity = LedgerEntity::new();
    let err = set_threshold(&args(&["0"]), &mut entity.config).unwrap_err();
    assert_eq!(err, "Threshold must be at least 1");
    assert_eq!(entity.config.threshold, 5);
}

#[test]
fn blacklist_and_unblacklist_round_trip() {
    let mut entity = LedgerEntity::new();
    assert_eq!(blacklist(&args(&["9"]), &mut entity.config).unwrap(), "Blacklisted `<#9>`");
    assert_eq!(
        blacklist(&args(&["9"]), &mut entity.config).unwrap(),
        "`<#9>` was already blacklisted"
    );
    assert_eq!(entity.config.blacklisted_channels, vec![9]);
    assert_eq!(
        unblacklist(&args(&["9"]), &mut entity.config).unwrap(),
        "Unblacklisted `<#9>`"
    );
    assert_eq!(
        unblacklist(&args(&["9"]), &mut entity.config).unwrap(),
        "`<#9>` was not blacklisted"
    );
    assert!(entity.config.blacklisted_channels.is_empty());
}

#[test]
fn admin_and_unadmin_round_trip() {
    let mut entity = LedgerEntity::new();
    assert_eq!(admin(&args(&["8"]), &mut entity.config).unwrap(), "Added `8` as a new admin");
    assert_eq!(admin(&args(&["8"]), &mut entity.config).unwrap(), "`8` was already an admin");
    assert!(entity.config.admins.contains(&8));
    assert_eq!(
        unadmin(&args(&["8"]), &mut entity.config).unwrap(),
        "Removed `8` from being an admin"
    );
    assert_eq!(unadmin(&args(&["8"]), &mut entity.config).unwrap(), "`8` was not an admin");
    assert!(!entity.config.admins.contains(&8));
}

#[test]
fn symbol_validation_accepts_emoji_and_custom_forms() {
    assert!(validate_symbol("\u{1f954}"));
    assert!(validate_symbol("<:tinypotato:735938441505931286>"));
    assert!(validate_symbol("<a:pattato:754104288078331955>"));
    assert!(!validate_symbol(""));
    assert!(!validate_symbol("<nonsense"));
    assert!(!validate_symbol("<::1>"));
    assert!(!validate_symbol("<:name:>"));
    assert!(!validate_symbol("<:name:12"));
    assert!(!validate_symbol("<:name:99999999999999999999999999>"));
}

#[test]
fn set_potato_swaps_the_symbol() {
    let mut entity = LedgerEntity::new();
    let reply = set_potato(&args(&["\u{1f954}"]), &mut entity.config).unwrap();
    assert_eq!(
        reply,
        "Set potato emoji to \u{1f954} (from <:tinypotato:735938441505931286>)"
    );
    assert_eq!(entity.config.tater_emoji, "\u{1f954}");
    let err = set_potato(&args(&["<broken"]), &mut entity.config).unwrap_err();
    assert_eq!(err, "`<broken` is not an emoji this tracker accepts");
    assert_eq!(entity.config.tater_emoji, "\u{1f954}");
}

#[test]
fn csv_exports_the_chosen_counters() {
    let mut entity = LedgerEntity::new();
    entity.taters_got = CountMap { entries: vec![(1, 4), (2, 9)] };
    let data = generate_csv(&args(&["receivers"]), &entity).unwrap();
    assert_eq!(data, "uid,value\n1,4\n2,9");
    let data = generate_csv(&args(&["givers"]), &entity).unwrap();
    assert_eq!(data, "uid,value");
    let err = generate_csv(&args(&["nonsense"]), &entity).unwrap_err();
    assert_eq!(err, "Unknown report");
}

#[test]
fn help_shows_admin_commands_to_admins_only() {
    let basic = help_text(false);
    let admin_help = help_text(true);
    assert!(basic.contains("receivers <page_number>"));
    assert!(!basic.contains("set_pin_channel"));
    assert!(admin_help.contains("set_pin_channel <channel_id>"));
    assert!(admin_help.starts_with(&basic));
}

#[test]
fn admin_check_accepts_configured_and_platform_admins() {
    let entity = LedgerEntity::new();
    assert!(is_admin_user(&entity.config, 273636822565912578, false));
    assert!(is_admin_user(&entity.config, 1, true));
    assert!(!is_admin_user(&entity.config, 1, false));
}

#[test]
fn dispatch_runs_admin_commands_for_admins_only() {
    let mut entity = LedgerEntity::new();
    let effect = handle_commands(&mut entity, &String::from("set_threshold"), &args(&["7"]), 1, true);
    match effect {
        CommandEffect::Reply { text } => assert_eq!(text, "Threshold changed to 7"),
        _ => panic!("expected a reply"),
    }
    assert_eq!(entity.config.threshold, 7);
    // The same command from a non-admin does nothing, silently.
    let effect = handle_commands(&mut entity, &String::from("set_threshold"), &args(&["9"]), 1, false);
    assert!(matches!(effect, CommandEffect::Quiet));
    assert_eq!(entity.config.threshold, 7);
}

#[test]
fn dispatch_wraps_command_errors() {
    let mut entity = LedgerEntity::new();
    let effect = handle_commands(&mut entity, &String::from("set_threshold"), &args(&[]), 1, true);
    match effect {
        CommandEffect::Reply { text } => {
            assert_eq!(text, "An error occured: \nNot enough arguments (1 expected)")
        },
        _ => panic!("expected a reply"),
    }
}

#[test]
fn dispatch_serves_leaderboards_to_everyone() {
    let mut entity = LedgerEntity::new();
    entity.taters_got = CountMap { entries: vec![(5, 3)] };
    let effect = handle_commands(&mut entity, &String::from("receivers"), &args(&[]), 5, false);
    match effect {
        CommandEffect::Board { title, body, footer } => {
            assert_eq!(title, "Leaderboard - Taters received");
            assert_eq!(body, "\u{1f947} 1: <@5> has received 3x taters\n");
            assert!(footer.starts_with("Your place: #1/1 with 3x"));
        },
        _ => panic!("expected a leaderboard"),
    }
}

#[test]
fn dispatch_handles_save_blacklist_listing_and_unknowns() {
    let mut entity = LedgerEntity::new();
    let effect = handle_commands(&mut entity, &String::from("save"), &args(&[]), 1, true);
    assert!(matches!(effect, CommandEffect::SaveCounters));
    // An empty blacklist yields no reply at all.
    let effect = handle_commands(&mut entity, &String::from("show_blacklist"), &args(&[]), 1, true);
    assert!(matches!(effect, CommandEffect::Quiet));
    blacklist(&args(&["3"]), &mut entity.config).unwrap();
    let effect = handle_commands(&mut entity, &String::from("show_blacklist"), &args(&[]), 1, true);
    match effect {
        CommandEffect::Reply { text } => assert_eq!(text, "- <#3>"),
        _ => panic!("expected a reply"),
    }
    let effect = handle_commands(&mut entity, &String::from("frobnicate"), &args(&[]), 1, true);
    assert!(matches!(effect, CommandEffect::Quiet));
    let effect = handle_commands(&mut entity, &String::from("list_admins"), &args(&[]), 1, true);
    match effect {
        CommandEffect::Reply { text } => {
            assert_eq!(text, "Admins:\n- <@273636822565912578>")
        },
        _ => panic!("expected a reply"),
    }
    let effect = handle_commands(&mut entity, &String::from("csv"), &args(&["receivers"]), 1, true);
    match effect {
        CommandEffect::Csv { data } => assert_eq!(data, "uid,value"),
        _ => panic!("expected an export"),
    }
}

#[test]
fn slash_commands_serve_the_two_leaderboards() {
    let mut entity = LedgerEntity::new();
    entity.taters_given = CountMap { entries: vec![(4, 2)] };
    let (title, body, _) = handle_slash_command(&entity, &String::from("givers"), None, 4).unwrap();
    assert_eq!(title, "Leaderboard - Taters given");
    assert_eq!(body, "\u{1f947} 1: <@4> has given 2x taters\n");
    let err = handle_slash_command(&entity, &String::from("frob"), Some(1), 4).unwrap_err();
    assert_eq!(err, "Unknown command");
}
