//! Le cote serveur : comptes, jetons, tickets, salons, tables.

use belote::accounts::{
    check_display_name, check_email, normalize_email, validate_display_name, validate_password,
};
use belote::action::{Action, RuleError};
use belote::auth::{
    bearer_token, generate_refresh_token, hash_password, hash_refresh_token, verify_password,
};
use belote::harness::simulate;
use belote::config::{parse_u16, Config, ConfigError, SameSitePolicy};
use belote::error::ApiError;
use belote::lobby::{
    after_code_attempt, code_from_indices, generate_join_code, CodeAttempt, ListParams, CODE_LENGTH,
};
use belote::state::{Phase, Seat};
use belote::table::{
    load_occupants, Arrival, SeatRecord, Occupant, ReadyOutcome, Resume, Table, TableError, TickOutcome, AUTO_CONTINUE_MS,
    BOT_THINK_MS, TURN_TIMEOUT_MS,
};
use belote::tickets::TicketStore;
use rand::SeedableRng;
use rand_chacha::ChaCha8Rng;

// ---------------------------------------------------------------------------
// Comptes
// ---------------------------------------------------------------------------

#[test]
fn emails_are_normalized_and_checked() {
    assert_eq!(normalize_email("  Jean@Exemple.FR ").unwrap(), "jean@exemple.fr");
    assert!(normalize_email("pas-une-adresse").is_err());
    assert!(normalize_email("a@").is_err() || normalize_email("a@").is_ok());
}

#[test]
fn short_passwords_are_refused() {
    assert!(validate_password("court").is_err());
    assert!(validate_password("assez-long").is_ok());
}

#[test]
fn display_names_are_trimmed_and_bounded() {
    assert_eq!(validate_display_name("  Leo  ").unwrap(), "Leo");
    assert!(validate_display_name("   ").is_err());
    assert!(validate_display_name(&"x".repeat(33)).is_err());
}

#[test]
fn account_errors_carry_their_message() {
    match normalize_email("ab") {
        Err(ApiError::BadRequest(m)) => assert_eq!(m, "adresse email invalide"),
        _ => panic!("adresse refusee attendue"),
    }
    let long = format!("{}@exemple.fr", "a".repeat(250));
    assert!(normalize_email(&long).is_err());
    match validate_password(&"x".repeat(513)) {
        Err(ApiError::BadRequest(m)) => assert_eq!(m, "mot de passe trop long"),
        _ => panic!("mot de passe refuse attendu"),
    }
    match validate_password("1234567") {
        Err(ApiError::BadRequest(m)) => {
            assert_eq!(m, "le mot de passe doit faire au moins 8 caracteres")
        }
        _ => panic!("mot de passe refuse attendu"),
    }
    // Huit caracteres accentues font plus de huit octets : c'est le nombre de
    // caracteres qui compte.
    assert!(validate_password("éééééééé").is_ok());
    assert_eq!(validate_display_name(&"é".repeat(32)).unwrap(), "é".repeat(32));
}

#[test]
fn api_errors_hide_internal_details() {
    let internal = ApiError::Internal("la base ne repond pas".to_string());
    assert_eq!(internal.status(), 500);
    assert_eq!(internal.client_message(), "erreur interne");
    assert_eq!(internal.message(), "la base ne repond pas");
    assert_eq!(ApiError::NotFound.status(), 404);
    assert_eq!(ApiError::NotFound.client_message(), "ressource introuvable");
    assert_eq!(ApiError::Unauthorized.status(), 401);
    assert_eq!(ApiError::Unauthorized.message(), "authentification requise");
    assert_eq!(ApiError::Forbidden.status(), 403);
    assert_eq!(ApiError::Forbidden.message(), "acces refuse");
    assert_eq!(ApiError::Conflict("complet".to_string()).status(), 409);
    assert_eq!(ApiError::BadRequest("non".to_string()).client_message(), "non");
}

// ---------------------------------------------------------------------------
// Mots de passe et jetons
// ---------------------------------------------------------------------------

#[test]
fn a_password_verifies_against_its_own_hash_only() {
    let hash = hash_password("belote1234").unwrap();
    assert!(verify_password("belote1234", &hash));
    assert!(!verify_password("belote1235", &hash));
    assert!(!verify_password("", &hash));
}

#[test]
fn two_identical_passwords_get_different_hashes() {
    let a = hash_password("meme-mot-de-passe").unwrap();
    let b = hash_password("meme-mot-de-passe").unwrap();
    assert_ne!(a, b, "le sel doit differer d'un utilisateur a l'autre");
}

#[test]
fn a_malformed_hash_never_validates() {
    assert!(!verify_password("x", "pas-un-hash-argon2"));
}

#[test]
fn refresh_tokens_are_unique_and_stored_hashed() {
    let (token_a, hash_a) = generate_refresh_token();
    let (token_b, _) = generate_refresh_token();
    assert_ne!(token_a, token_b);
    assert_eq!(hash_a, hash_refresh_token(&token_a));
    assert_ne!(hash_a, token_a.as_bytes(), "le clair ne doit pas etre stocke");
}

#[test]
fn a_refresh_token_is_32_random_bytes_in_url_safe_base64() {
    let (token, hash) = generate_refresh_token();
    assert_eq!(token.len(), 43);
    assert!(token.chars().all(|c| c.is_ascii_alphanumeric() || c == '-' || c == '_'));
    assert_eq!(hash.len(), 32);
    // Empreinte SHA-256 connue de la chaine "abc".
    assert_eq!(
        hash_refresh_token("abc")[..4],
        [0xba, 0x78, 0x16, 0xbf]
    );
}

// ---------------------------------------------------------------------------
// Tickets
// ---------------------------------------------------------------------------

#[test]
fn a_ticket_works_once_and_only_once() {
    let mut store = TicketStore::new();
    let user = 42u128;
    let ticket = store.issue(user, 1_000);

    assert_eq!(store.redeem(&ticket, 2_000), Some(user));
    assert_eq!(store.redeem(&ticket, 2_000), None, "un ticket ne se rejoue pas");
}

#[test]
fn an_unknown_ticket_is_refused() {
    let mut store = TicketStore::new();
    assert_eq!(store.redeem("jamais-emis", 0), None);
}

#[test]
fn two_tickets_never_collide() {
    let mut store = TicketStore::new();
    let a = store.issue(1, 0);
    let b = store.issue(2, 0);
    assert_ne!(a, b);
}

#[test]
fn a_ticket_expires_after_thirty_seconds() {
    let mut store = TicketStore::new();
    store.insert("t".to_string(), 7, 10_000);
    assert_eq!(store.redeem("t", 40_000), None, "30 s pile : perime");
    store.insert("u".to_string(), 8, 10_000);
    assert_eq!(store.redeem("u", 39_999), Some(8));
    // Une emission plus tardive jette les tickets perimes.
    store.insert("v".to_string(), 9, 0);
    store.insert("w".to_string(), 10, 50_000);
    assert_eq!(store.redeem("v", 0), None);
    assert_eq!(store.redeem("w", 50_001), Some(10));
}

// ---------------------------------------------------------------------------
// Salons
// ---------------------------------------------------------------------------

#[test]
fn join_codes_avoid_ambiguous_characters() {
    let code = generate_join_code();
    assert_eq!(code.len(), CODE_LENGTH);
    for ch in code.chars() {
        assert!(!"O0I1L".contains(ch), "{ch} se confond avec un autre caractere");
    }
}

#[test]
fn join_codes_are_not_obviously_repetitive() {
    let mut codes: Vec<String> = (0..200).map(|_| generate_join_code()).collect();
    codes.sort();
    codes.dedup();
    assert!(codes.len() > 190, "trop de collisions sur 200 tirages");
}

#[test]
fn the_game_list_limit_is_clamped() {
    assert_eq!(ListParams { limit: None }.effective_limit(), 20);
    assert_eq!(ListParams { limit: Some(0) }.effective_limit(), 1);
    assert_eq!(ListParams { limit: Some(-5) }.effective_limit(), 1);
    assert_eq!(ListParams { limit: Some(37) }.effective_limit(), 37);
    assert_eq!(ListParams { limit: Some(1000) }.effective_limit(), 100);
}

// ---------------------------------------------------------------------------
// Configuration
// ---------------------------------------------------------------------------

fn s(text: &str) -> Option<String> {
    Some(text.to_string())
}

#[test]
fn configuration_has_sensible_defaults() {
    let secret = "x".repeat(32);
    let cfg = Config::from_vars(s("postgres://db"), s(&secret), None, None, s(""), None).unwrap();
    assert_eq!(cfg.allowed_origin, "http://localhost:3000");
    assert_eq!(cfg.port, 8080);
    assert_eq!(cfg.cookie_domain, None);
    assert!(!cfg.secure_cookies);

    let cfg = Config::from_vars(
        s("postgres://db"),
        s(&secret),
        s("https://belote.example"),
        s("9000"),
        s("example"),
        None,
    )
    .unwrap();
    assert_eq!(cfg.port, 9000);
    assert_eq!(cfg.cookie_domain, s("example"));
    assert!(cfg.secure_cookies);

    let cfg = Config::from_vars(s("db"), s(&secret), s("https://x"), s("port"), None, s("0")).unwrap();
    assert_eq!(cfg.port, 8080);
    assert!(!cfg.secure_cookies);
    let cfg = Config::from_vars(s("db"), s(&secret), None, s("+80"), None, s("yes")).unwrap();
    assert_eq!(cfg.port, 80);
    assert!(cfg.secure_cookies);
}

#[test]
fn configuration_errors_say_what_is_missing() {
    let secret = "x".repeat(32);
    let e = Config::from_vars(None, s(&secret), None, None, None, None).unwrap_err();
    assert_eq!(e, ConfigError::MissingDatabaseUrl);
    assert_eq!(e.message(), "DATABASE_URL manquante (voir .env.example)");
    let e = Config::from_vars(s("db"), None, None, None, None, None).unwrap_err();
    assert_eq!(e, ConfigError::MissingJwtSecret);
    let e = Config::from_vars(s("db"), s("trop-court"), None, None, None, None).unwrap_err();
    assert_eq!(e, ConfigError::ShortJwtSecret);
    assert_eq!(e.message(), "JWT_SECRET doit faire au moins 32 caracteres");
}

#[test]
fn ports_are_read_like_rust_does() {
    assert_eq!(parse_u16("8080"), Some(8080));
    assert_eq!(parse_u16("65535"), Some(65535));
    assert_eq!(parse_u16("65536"), None);
    assert_eq!(parse_u16("007"), Some(7));
    assert_eq!(parse_u16("+1"), Some(1));
    assert_eq!(parse_u16("+"), None);
    assert_eq!(parse_u16(""), None);
    assert_eq!(parse_u16("-1"), None);
    assert_eq!(parse_u16("12a"), None);
    for text in ["0", "1", "443", "65535", "99999", "3000x"] {
        assert_eq!(parse_u16(text), text.parse::<u16>().ok(), "{text}");
    }
}

// ---------------------------------------------------------------------------
// Tables
// ---------------------------------------------------------------------------

fn occupants(humans: &[u128]) -> [Occupant; 4] {
    std::array::from_fn(|i| Occupant {
        user_id: humans.get(i).copied(),
        display_name: format!("s{i}"),
        is_bot: i >= humans.len(),
    })
}

#[test]
fn a_bot_seat_always_plays_by_itself() {
    let occupants = occupants(&[0]);
    assert!(occupants[1].is_bot);
    assert!(!occupants[0].is_bot);
    let table = Table::new(0, true, occupants);
    assert!(table.is_auto(Seat(1)));
    assert!(table.is_auto(Seat(0)), "un humain deconnecte joue par un bot");
}

#[test]
fn a_solo_table_starts_once_its_player_is_there() {
    let mut table = Table::new(10, true, occupants(&[10]));
    assert_eq!(table.seat_of(10), Some(Seat(0)));
    assert_eq!(table.seat_of(11), None);
    assert_eq!(table.connect(11, 1), Arrival::NoSeat);
    assert_eq!(table.connect(10, 2), Arrival::StartMatch { seat: Seat(0) });
    assert!(table.is_connected(Seat(0)));
    assert!(!table.is_auto(Seat(0)));
    assert!(table.all_humans_connected());

    table.begin_match();
    let mut rng = ChaCha8Rng::seed_from_u64(5);
    let ev = table.deal(&mut rng);
    assert!(matches!(ev, belote::Event::Dealt { .. }));
    assert_eq!(table.state().phase, Phase::Bidding1);
    assert_eq!(table.schedule_delay(), Some(BOT_THINK_MS), "le siege 1 est un bot");

    // Le siege 1 joue seul ; le siege 0 agit hors de son tour.
    let wrong = table.act(Seat(0), Action::Pass).unwrap_err();
    assert_eq!(wrong, TableError::Rule(RuleError::NotYourTurn));
    match table.on_tick(None, None, true) {
        TickOutcome::Act { seat, .. } => assert_eq!(seat, Seat(1)),
        other => panic!("action du bot attendue, pas {other:?}"),
    }
}

#[test]
fn a_whole_match_deal_is_settled_once() {
    let mut table = Table::new(1, true, occupants(&[]));
    table.begin_match();
    let mut rng = ChaCha8Rng::seed_from_u64(11);
    table.deal(&mut rng);
    let mut settlements = 0;
    let mut steps = 0;
    while table.state().phase != Phase::Finished {
        if table.state().phase == Phase::Redeal {
            table.deal(&mut rng);
            continue;
        }
        let (seat, action) = table.bot_action().expect("le bot joue");
        let (_, settled) = table.act(seat, action).unwrap();
        if let Some(s) = settled {
            settlements += 1;
            let score = table.state().score.unwrap();
            assert_eq!(s.totals, [score.points[0], score.points[1]]);
            assert_eq!(table.totals(), s.totals);
        }
        steps += 1;
        assert!(steps < 2_000);
    }
    assert_eq!(settlements, 1);
    assert_eq!(table.schedule_delay(), Some(AUTO_CONTINUE_MS));
    assert_eq!(table.on_tick(None, None, true), TickOutcome::Resume);
    assert_eq!(table.resume(), Resume::NextDeal);
}

#[test]
fn the_next_deal_waits_for_every_present_player() {
    let mut table = Table::new(1, false, occupants(&[1, 2]));
    assert_eq!(table.connect(1, 10), Arrival::InLobby { seat: Seat(0) });
    assert_eq!(table.connect(2, 11), Arrival::InLobby { seat: Seat(1) });
    assert!(table.can_start(1));
    assert!(!table.can_start(2));
    assert_eq!(table.mark_ready(1), ReadyOutcome::Ignored, "donne non terminee");
    table.begin_match();
    assert!(!table.can_start(1));
    assert!(!table.disconnect(11));
    assert!(!table.is_connected(Seat(1)));
    assert!(table.disconnect(10));
    assert_eq!(table.on_tick(Some(600_001), None, false), TickOutcome::Shutdown);
    assert_eq!(table.on_tick(Some(1_000), None, true), TickOutcome::Idle);
}

#[test]
fn a_lobby_waits_for_its_owner_or_its_players() {
    let table = Table::new(3, true, occupants(&[3]));
    assert_eq!(table.on_tick(None, Some(60_001), false), TickOutcome::StartMatch);
    assert_eq!(table.on_tick(None, Some(10), false), TickOutcome::Idle);
    let friends = Table::new(3, false, occupants(&[3]));
    assert_eq!(friends.on_tick(None, Some(1_000_000), true), TickOutcome::Idle);
    assert_eq!(friends.schedule_delay(), None);
    let infos = friends.seat_infos();
    assert_eq!(infos.len(), 4);
    assert_eq!(infos[2].display_name, "s2");
    assert!(infos[2].is_bot);
    assert!(!infos[0].connected);
    assert_eq!(TURN_TIMEOUT_MS, 45_000);
}

#[test]
fn a_bearer_header_carries_its_token() {
    assert_eq!(bearer_token("Bearer abc.def"), Some("abc.def"));
    assert_eq!(bearer_token("Bearer "), Some(""));
    assert_eq!(bearer_token("bearer abc"), None);
    assert_eq!(bearer_token("Basic abc"), None);
    assert_eq!(bearer_token("Bear"), None);
}

#[test]
fn the_refresh_cookie_follows_the_configuration() {
    let secret = "x".repeat(32);
    let local = Config::from_vars(s("db"), s(&secret), None, None, None, None).unwrap();
    let p = local.cookie_policy();
    assert!(!p.secure);
    assert_eq!(p.domain, None);
    assert_eq!(p.same_site, SameSitePolicy::Lax);
    let cross = Config::from_vars(s("db"), s(&secret), s("https://front"), None, None, None).unwrap();
    let p = cross.cookie_policy();
    assert!(p.secure);
    assert_eq!(p.same_site, SameSitePolicy::NoRestriction);
    let shared = Config::from_vars(s("db"), s(&secret), s("https://front"), None, s("example.fr"), None).unwrap();
    let p = shared.cookie_policy();
    assert_eq!(p.domain, s("example.fr"));
    assert_eq!(p.same_site, SameSitePolicy::Lax);
}

#[test]
fn a_table_is_loaded_from_its_four_seats() {
    let rows = vec![
        SeatRecord { seat: 0, user_id: Some(5), display_name: Some("Ana".to_string()), is_bot: false },
        SeatRecord { seat: 1, user_id: None, display_name: None, is_bot: true },
        SeatRecord { seat: 2, user_id: Some(6), display_name: None, is_bot: false },
        SeatRecord { seat: 3, user_id: None, display_name: None, is_bot: true },
    ];
    let occ = load_occupants("ABCDEF", rows).unwrap();
    assert_eq!(occ[0].display_name, "Ana");
    assert_eq!(occ[0].user_id, Some(5));
    assert_eq!(occ[1].display_name, "Robot Ouest");
    assert!(occ[1].is_bot);
    assert_eq!(occ[2].display_name, "Robot Nord");
    assert!(!occ[2].is_bot);
    assert_eq!(occ[3].display_name, "Robot Est");
    match load_occupants("XYZ", Vec::new()) {
        Err(ApiError::Internal(m)) => assert_eq!(m, "la table XYZ n'a pas 4 sieges"),
        _ => panic!("panne interne attendue"),
    }
}

#[test]
fn the_simulation_harness_finds_no_failure() {
    let mut rng = ChaCha8Rng::seed_from_u64(42);
    let report = simulate(100, &mut rng);
    assert_eq!(report.games, 100);
    assert_eq!(report.failures, 0, "{:?}", report.messages);
    assert_eq!(report.lines.len(), 100);
    assert_eq!(report.takes.iter().sum::<usize>(), 100);
    assert!(report.contracts_made <= 100);
}

#[test]
fn a_match_ends_when_a_team_reaches_1000_points() {
    let mut table = Table::new(1, true, occupants(&[]));
    table.begin_match();
    let mut rng = ChaCha8Rng::seed_from_u64(2025);
    let mut deals = 0;
    let winner = loop {
        table.deal(&mut rng);
        deals += 1;
        assert!(deals < 500, "le match devrait finir");
        let mut settled = None;
        while table.state().phase != Phase::Finished && table.state().phase != Phase::Redeal {
            let (seat, action) = table.bot_action().expect("le bot joue");
            let (_, s) = table.act(seat, action).unwrap();
            if s.is_some() {
                settled = s;
            }
        }
        if table.state().phase == Phase::Redeal {
            continue;
        }
        let s = settled.expect("donne comptee");
        if let Some(w) = s.winner {
            break (w, s.totals);
        }
        assert_eq!(table.resume(), Resume::NextDeal);
    };
    let (team, totals) = winner;
    assert!(totals[team as usize] >= 1000);
    assert!(totals[team as usize] > totals[1 - team as usize]);
    assert_eq!(table.winner(), Some(team));
    assert_eq!(table.schedule_delay(), None, "match gagne : on attend une decision");
    assert_eq!(table.resume(), Resume::NewMatch);
}

#[test]
fn a_solo_table_with_two_players_waits_for_both() {
    let mut table = Table::new(1, true, occupants(&[1, 2]));
    assert_eq!(table.connect(1, 10), Arrival::InLobby { seat: Seat(0) });
    assert_eq!(table.connect(2, 11), Arrival::StartMatch { seat: Seat(1) });
}

#[test]
fn the_next_deal_starts_when_every_present_player_is_ready() {
    let mut table = Table::new(1, false, occupants(&[1, 2]));
    table.connect(1, 10);
    table.connect(2, 11);
    table.begin_match();
    assert_eq!(table.carry(), 0);
    let mut rng = ChaCha8Rng::seed_from_u64(9);
    loop {
        table.deal(&mut rng);
        while table.state().phase != Phase::Finished && table.state().phase != Phase::Redeal {
            let seat = table.state().turn;
            let view = table.view_for(seat);
            let action = belote::bot::choose_action(&view).expect("le bot joue");
            let _ = table.act(seat, action).unwrap();
        }
        if table.state().phase == Phase::Finished {
            break;
        }
    }
    let score = table.state().score.unwrap();
    assert_eq!(table.carry(), score.carry_out, "la cagnotte passe a la donne suivante");
    assert_eq!(table.mark_ready(1), ReadyOutcome::Waiting);
    assert_eq!(table.mark_ready(2), ReadyOutcome::Proceed);
}

#[test]
fn a_join_code_is_read_from_its_draws() {
    assert_eq!(code_from_indices(&[0, 1, 2, 30, 29, 8]), "ABC98J");
    assert_eq!(code_from_indices(&[]), "");
}

#[test]
fn normalized_fields_are_checked_as_given() {
    assert_eq!(check_email("a@b".to_string()).unwrap(), "a@b");
    assert!(matches!(check_email("ab".to_string()), Err(ApiError::BadRequest(_))));
    assert!(check_email("sans-arobase".to_string()).is_err());
    assert_eq!(check_display_name("Zoe").unwrap(), "Zoe");
    assert!(check_display_name("").is_err());
    assert!(check_display_name(&"x".repeat(33)).is_err());
}

#[test]
fn a_taken_join_code_is_drawn_again_eight_times_at_most() {
    assert_eq!(after_code_attempt(0, true), CodeAttempt::Taken);
    assert_eq!(after_code_attempt(0, false), CodeAttempt::Retry);
    assert_eq!(after_code_attempt(6, false), CodeAttempt::Retry);
    assert_eq!(after_code_attempt(7, false), CodeAttempt::GiveUp);
    assert_eq!(after_code_attempt(7, true), CodeAttempt::Taken);
}
