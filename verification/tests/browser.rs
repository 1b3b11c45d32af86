use fluxor::browser::create_input;
use fluxor::model::{AppSettings, BrowserDownloadInput, CookieEntry};

#[test]
fn browser_input_maps_safe_request_metadata_and_defaults() {
    let input = create_input(
        BrowserDownloadInput {
            url: "https://media.example/video.mp4".to_owned(),
            file_name: Some("episode.mp4".to_owned()),
            page_url: Some("https://site.example/watch".to_owned()),
            page_title: None,
            referrer: None,
            user_agent: Some("Browser".to_owned()),
            cookies: vec![CookieEntry {
                name: "session".to_owned(),
                value: "secret".to_owned(),
            }],
            force_single_stream: true,
        },
        &AppSettings::default(),
    );

    assert_eq!(input.file_name, "episode.mp4");
    assert_eq!(input.source.headers.len(), 2);
    assert_eq!(input.source.cookies.len(), 1);
    assert!(input.source.force_single_stream);
    assert!(!input.destination_customized);
}

#[test]
fn browser_input_uses_episode_page_title_for_technical_names() {
    let input = create_input(
        BrowserDownloadInput {
            url: "https://re.animepelix.net/redirect.php?id=...".to_owned(),
            file_name: Some("redirect.php".to_owned()),
            page_url: Some("https://animefenix2.tv/ver/youjo-senki-s2-6".to_owned()),
            page_title: Some("Ver episodio 6 de Youjo Senki II - MonosChinos".to_owned()),
            referrer: None,
            user_agent: None,
            cookies: Vec::new(),
            force_single_stream: true,
        },
        &AppSettings::default(),
    );

    assert_eq!(input.file_name, "Youjo Senki II Episodio 6.mp4");
}

#[test]
fn page_file_name_matches_episode_title_patterns() {
    let from_title = |page_title: &str| {
        create_input(
            BrowserDownloadInput {
                url: "https://site.example/hugging.php".to_owned(),
                file_name: Some("hugging.php".to_owned()),
                page_url: Some("https://site.example/ver/one-piece-1050".to_owned()),
                page_title: Some(page_title.to_owned()),
                referrer: None,
                user_agent: None,
                cookies: Vec::new(),
                force_single_stream: true,
            },
            &AppSettings::default(),
        )
        .file_name
    };
    assert_eq!(
        from_title("Ver episodio 6 de Youjo Senki II - MonosChinos"),
        "Youjo Senki II Episodio 6.mp4"
    );
    assert_eq!(
        from_title("One Piece Episodio 1050 - Subs"),
        "One Piece Episodio 1050.mp4"
    );
    assert_eq!(
        from_title("Attack on Titan Episodio 12 (1080p)"),
        "Attack on Titan Episodio 12.mp4"
    );
    assert_eq!(
        from_title("Boku no Hero Academia Episodio 3 v2"),
        "Boku no Hero Academia Episodio 3.mp4"
    );
    assert_eq!(from_title("Guía de descargas y tutoriales"), "hugging.php");
}
