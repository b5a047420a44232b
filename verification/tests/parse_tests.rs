use signature_extractor::{
    parse_record_to_details, parse_signature_events, AppError, SignatureEvent, Timestamp,
};

const FAKE_PDF_CONTENT_SUCCESS: &str = r#"
        2. Log's e eventos do processo de assinatura:

        Evento: Dados do Dispositivo: Data e hora (UTC -3):

        O documento 98edc2bc-2063-466f-
        855e-7f3f5202a046 foi criado e enviado

        IP de acesso: 186.251.21.12

        Porta lógica:
        16/07/2025 15:10:19

        O signatário QUEM ASSINOU
        abriu o envelope.

        Dispositivo:Mozilla/5.0 (X11; Linux
        x86_64) AppleWebKit/537.36
        (KHTML, like Gecko)
        Chrome/138.0.0.0 Safari/537.36

        Geolocalização (DD): 0,0

        IP de acesso: 186.251.21.12

        16/07/2025 15:11:39

        O signatário QUEM ASSINOU
        visualizou o documento.

        Dispositivo:Mozilla/5.0 (X11; Linux
        x86_64) AppleWebKit/537.36
        (KHTML, like Gecko)
        Chrome/138.0.0.0 Safari/537.36

        Geolocalização (DD): 0,0

        IP de acesso: 186.251.21.12

        16/07/2025 15:11:40

        O signatário QUEM ASSINOU leu
        e concordou com o documento.

        Dispositivo:Mozilla/5.0 (X11; Linux
        x86_64) AppleWebKit/537.36
        (KHTML, like Gecko)
        Chrome/138.0.0.0 Safari/537.36

        Geolocalização (DD): 0,0

        IP de acesso: 186.251.21.12

        16/07/2025 15:11:42

        O processo de assinatura do signatário
        QUEM ASSINOU foi finalizado

        Dispositivo:Mozilla/5.0 (X11; Linux
        x86_64) AppleWebKit/537.36
        (KHTML, like Gecko)
        Chrome/138.0.0.0 Safari/537.36

        Geolocalização (DD): 0,0

        16/07/2025 15:11:44
    "#;

const FAKE_PDF_CONTENT_NO_MARKER: &str = "O processo de assinatura do signatário.";
const FAKE_PDF_CONTENT_NO_DATA: &str = "2. Log's e eventos do processo de assinatura:";

fn at(year: i32, month: u32, day: u32, hour: u32, minute: u32, second: u32) -> Timestamp {
    Timestamp { year, month, day, hour, minute, second, nanosecond: 0 }
}

#[test]
fn test_parse_signature_events_success() {
    let events = parse_signature_events(FAKE_PDF_CONTENT_SUCCESS)
        .expect("Deveria ter tido sucesso na extração");
    assert_eq!(events.len(), 3);
    assert_eq!(events[0].ip_address, Some("186.251.21.12".to_string()));
    assert_eq!(events[1].geolocation, Some("0,0".to_string()));
}

#[test]
fn test_parse_signature_events_no_marker() {
    let result = parse_signature_events(FAKE_PDF_CONTENT_NO_MARKER);
    assert!(matches!(result, Err(AppError::EventsLogs)));
}

#[test]
fn test_parse_signature_events_no_data() {
    let result = parse_signature_events(FAKE_PDF_CONTENT_NO_DATA);
    assert!(matches!(result, Err(AppError::DataNotFound)));
}

#[test]
fn test_parse_record_to_details_with_fixture() {
    let record_text = r#"
            Assinatura em lote realizada
            Dispositivo: Sistema Unico de Processo Eletronico em Santa Catarina
            Geolocalização (DD): 0,0
            IP de acesso: 186.251.21.12
            19/07/2024 16:50:01
    "#;
    let expected = SignatureEvent {
        geolocation: Some("0,0".to_string()),
        ip_address: Some("186.251.21.12".to_string()),
        signed_at: at(2024, 7, 19, 16, 50, 1),
        user_agent: Some("Sistema Unico de Processo Eletronico em Santa Catarina".to_string()),
    };
    assert_eq!(parse_record_to_details(record_text), Some(expected));
}

fn text_of(value: &str) -> Option<String> {
    Some(value.to_string())
}

fn document(blocks: &[&str]) -> String {
    let mut text = String::from(
        "Resumo do envelope\n2. Log's e eventos do processo de assinatura:\n\nEvento: Dados do Dispositivo: Data e hora (UTC -3):\n\n",
    );
    for block in blocks {
        text.push_str(block);
        text.push('\n');
    }
    text
}

const BLOCK_OPENED: &str = "16/07/2025 15:10:19\n\nO signatário QUEM ASSINOU\nabriu o envelope.\n\nDispositivo:Mozilla/5.0 (X11; Linux\nx86_64) AppleWebKit/537.36\n\nGeolocalização (DD): 0,0\n\nIP de acesso: 186.251.21.12\n";
const BLOCK_VIEWED: &str = "16/07/2025 15:11:39\n\nvisualizou o documento.\n\nDispositivo: Firefox\n\nGeolocalização (DD): -27.5,-48.5\n\nIP de acesso: 10.0.0.7\n";
const BLOCK_SIGNED: &str = "17/07/2025 08:00:01\n\nleu e concordou.\n\nDispositivo: Portal\nSistema Unico de Processo Eletronico\n\nGeolocalização (DD): 1,2\n\nIP de acesso: 10.0.0.8\n";
const BLOCK_NO_IP: &str = "16/07/2025 15:11:42\n\nfinalizado\n\nDispositivo: Chrome\n\nGeolocalização (DD): 0,0\n";
const BLOCK_NO_GEOLOCATION: &str = "16/07/2025 15:11:43\n\nfinalizado\n\nDispositivo: Chrome\n\nIP de acesso: 10.0.0.9\n";
const BLOCK_NO_DEVICE: &str = "16/07/2025 15:11:44\n\nfinalizado\n\nGeolocalização (DD): 0,0\n\nIP de acesso: 10.0.0.9\n";

fn opened() -> SignatureEvent {
    SignatureEvent {
        geolocation: text_of("0,0"),
        ip_address: text_of("186.251.21.12"),
        signed_at: at(2025, 7, 16, 15, 10, 19),
        user_agent: text_of("Mozilla/5.0 (X11; Linux\nx86_64) AppleWebKit/537.36"),
    }
}

fn viewed() -> SignatureEvent {
    SignatureEvent {
        geolocation: text_of("-27.5,-48.5"),
        ip_address: text_of("10.0.0.7"),
        signed_at: at(2025, 7, 16, 15, 11, 39),
        user_agent: text_of("Firefox"),
    }
}

fn signed() -> SignatureEvent {
    SignatureEvent {
        geolocation: text_of("1,2"),
        ip_address: text_of("10.0.0.8"),
        signed_at: at(2025, 7, 17, 8, 0, 1),
        user_agent: text_of("Portal\nSistema Unico de Processo Eletronico"),
    }
}

#[test]
fn the_sample_document_gives_its_three_complete_events() {
    let events = parse_signature_events(FAKE_PDF_CONTENT_SUCCESS).expect("three events");
    let user_agent = text_of(
        "Mozilla/5.0 (X11; Linux\nx86_64) AppleWebKit/537.36\n(KHTML, like Gecko)\nChrome/138.0.0.0 Safari/537.36",
    );
    let expected: Vec<SignatureEvent> = [(15, 10, 19), (15, 11, 39), (15, 11, 40)]
        .iter()
        .map(|&(hour, minute, second)| SignatureEvent {
            geolocation: text_of("0,0"),
            ip_address: text_of("186.251.21.12"),
            signed_at: at(2025, 7, 16, hour, minute, second),
            user_agent: user_agent.clone(),
        })
        .collect();
    assert_eq!(events, expected);
}

#[test]
fn the_marker_with_a_curly_apostrophe_is_no_marker() {
    let text = FAKE_PDF_CONTENT_SUCCESS.replace("Log's", "Log\u{2019}s");
    assert!(matches!(parse_signature_events(&text), Err(AppError::EventsLogs)));
}

#[test]
fn an_empty_text_has_no_section() {
    assert!(matches!(parse_signature_events(""), Err(AppError::EventsLogs)));
}

#[test]
fn a_section_of_headers_and_footers_has_no_events() {
    let text = document(&["Página 1 de 2", "", "   Página 2 de 2"]);
    assert!(matches!(parse_signature_events(&text), Err(AppError::DataNotFound)));
}

#[test]
fn a_section_without_time_stamps_has_no_events() {
    let text =
        document(&["Dispositivo: Chrome\nGeolocalização (DD): 0,0\nIP de acesso: 10.0.0.9\n"]);
    assert!(matches!(parse_signature_events(&text), Err(AppError::DataNotFound)));
}

#[test]
fn every_complete_block_is_returned_in_document_order() {
    let text = document(&[BLOCK_OPENED, BLOCK_VIEWED, BLOCK_SIGNED]);
    assert_eq!(parse_signature_events(&text).ok(), Some(vec![opened(), viewed(), signed()]));
    let text = document(&[BLOCK_SIGNED, BLOCK_OPENED, BLOCK_VIEWED]);
    assert_eq!(parse_signature_events(&text).ok(), Some(vec![signed(), opened(), viewed()]));
    let text = document(&[BLOCK_VIEWED]);
    assert_eq!(parse_signature_events(&text).ok(), Some(vec![viewed()]));
}

#[test]
fn signed_at_is_the_time_stamp_of_the_block() {
    let text = document(&[BLOCK_SIGNED]);
    let events = parse_signature_events(&text).expect("one event");
    assert_eq!(events.len(), 1);
    assert_eq!(
        events[0].signed_at,
        Timestamp { year: 2025, month: 7, day: 17, hour: 8, minute: 0, second: 1, nanosecond: 0 }
    );
}

#[test]
fn a_block_without_ip_address_is_left_out() {
    let text = document(&[BLOCK_OPENED, BLOCK_NO_IP, BLOCK_VIEWED]);
    assert_eq!(parse_signature_events(&text).ok(), Some(vec![opened(), viewed()]));
}

#[test]
fn a_block_without_geolocation_is_left_out() {
    let text = document(&[BLOCK_NO_GEOLOCATION, BLOCK_OPENED, BLOCK_VIEWED]);
    assert_eq!(parse_signature_events(&text).ok(), Some(vec![opened(), viewed()]));
}

#[test]
fn a_block_without_device_text_is_left_out() {
    let text = document(&[BLOCK_OPENED, BLOCK_VIEWED, BLOCK_NO_DEVICE]);
    assert_eq!(parse_signature_events(&text).ok(), Some(vec![opened(), viewed()]));
}

#[test]
fn only_incomplete_blocks_give_no_events() {
    let text = document(&[BLOCK_NO_IP, BLOCK_NO_GEOLOCATION, BLOCK_NO_DEVICE]);
    assert!(matches!(parse_signature_events(&text), Err(AppError::DataNotFound)));
}

#[test]
fn a_block_whose_time_stamp_is_no_date_is_left_out() {
    let broken = BLOCK_VIEWED.replace("16/07/2025", "31/02/2025");
    let text = document(&[BLOCK_OPENED, &broken, BLOCK_SIGNED]);
    assert_eq!(parse_signature_events(&text).ok(), Some(vec![opened(), signed()]));
}

#[test]
fn parsing_twice_gives_the_same_events() {
    let text = document(&[BLOCK_OPENED, BLOCK_NO_IP, BLOCK_SIGNED]);
    let first = parse_signature_events(&text).expect("two events");
    let second = parse_signature_events(&text).expect("two events");
    assert_eq!(first, second);
    assert_eq!(first, vec![opened(), signed()]);
    let other = parse_signature_events(FAKE_PDF_CONTENT_SUCCESS).expect("three events");
    let again = parse_signature_events(&text).expect("two events");
    assert_eq!(other.len(), 3);
    assert_eq!(again, first);
}

#[test]
fn device_text_keeps_its_lines_and_their_order() {
    let block = "16/07/2025 15:10:19\nassinou\nDispositivo: Mozilla/5.0 (X11;\n  Linux x86_64)\nSistema Unico de Processo Eletronico em Santa Catarina\nAppleWebKit/537.36\nGeolocalização (DD): 0,0\nIP de acesso: 186.251.21.12\n";
    let events = parse_signature_events(&document(&[block])).expect("one event");
    assert_eq!(events.len(), 1);
    assert_eq!(
        events[0].user_agent,
        text_of(
            "Mozilla/5.0 (X11;\nLinux x86_64)\nSistema Unico de Processo Eletronico em Santa Catarina\nAppleWebKit/537.36"
        )
    );
}

#[test]
fn page_footers_do_not_break_a_block() {
    let block = "16/07/2025 15:10:19\nassinou\nDispositivo: Mozilla/5.0\nPágina 1 de 2\n(KHTML, like Gecko)\nGeolocalização (DD): 0,0\nPágina 2 de 2\nIP de acesso: 186.251.21.12\n";
    let events = parse_signature_events(&document(&[block])).expect("one event");
    assert_eq!(
        events,
        vec![SignatureEvent {
            geolocation: text_of("0,0"),
            ip_address: text_of("186.251.21.12"),
            signed_at: at(2025, 7, 16, 15, 10, 19),
            user_agent: text_of("Mozilla/5.0\n(KHTML, like Gecko)"),
        }]
    );
}

#[test]
fn lines_before_the_first_time_stamp_are_a_record_without_time() {
    let text = document(&[
        "O documento foi criado\nDispositivo: Servidor\nGeolocalização (DD): 0,0\nIP de acesso: 1.1.1.1\n",
        BLOCK_VIEWED,
    ]);
    assert_eq!(parse_signature_events(&text).ok(), Some(vec![viewed()]));
}

#[test]
fn fields_after_a_time_stamp_belong_to_the_record_it_opens() {
    let text = document(&[
        "descricao um\nDispositivo: A\nGeolocalização (DD): 1,1\nIP de acesso: 1.1.1.1\n16/07/2025 10:00:00\ndescricao dois\nDispositivo: B\nGeolocalização (DD): 2,2\nIP de acesso: 2.2.2.2\n16/07/2025 11:00:00\n",
    ]);
    assert_eq!(
        parse_signature_events(&text).ok(),
        Some(vec![SignatureEvent {
            geolocation: text_of("2,2"),
            ip_address: text_of("2.2.2.2"),
            signed_at: at(2025, 7, 16, 10, 0, 0),
            user_agent: text_of("B"),
        }])
    );
}

#[test]
fn windows_line_endings_change_nothing() {
    let text = document(&[BLOCK_OPENED, BLOCK_SIGNED]).replace('\n', "\r\n");
    assert_eq!(parse_signature_events(&text).ok(), Some(vec![opened(), signed()]));
}
