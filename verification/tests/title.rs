use ytm_core::title::{
    find_at_boundary, has_cover_marker, mentions, primary_artist, song_title_only, strip_title_noise,
};

#[test]
fn strips_production_decoration_from_titles() {
    assert_eq!(strip_title_noise("法螺話 (Official Video)"), "法螺話");
    assert_eq!(strip_title_noise("法螺話 [MV]"), "法螺話");
    assert_eq!(strip_title_noise("法螺話 (feat. Guiano)"), "法螺話");
    assert_eq!(strip_title_noise("Ribs (Official Music Video)"), "Ribs");
    assert_eq!(strip_title_noise("Song [Lyrics] (HD)"), "Song");
    assert_eq!(strip_title_noise("Song【MV】"), "Song");
    assert_eq!(strip_title_noise("Song (Remastered)"), "Song");
}

#[test]
fn keeps_qualifiers_that_denote_a_different_recording() {
    // These change which recording it is, so stripping them would match
    // the wrong lyrics.
    assert_eq!(
        strip_title_noise("法螺話(self cover)"),
        "法螺話(self cover)"
    );
    assert_eq!(strip_title_noise("Song (Remix)"), "Song (Remix)");
    assert_eq!(strip_title_noise("Song (Acoustic)"), "Song (Acoustic)");
    assert_eq!(
        strip_title_noise("Song (Live at Budokan)"),
        "Song (Live at Budokan)"
    );
}

#[test]
fn title_stripping_is_safe_on_odd_input() {
    assert_eq!(strip_title_noise(""), "");
    assert_eq!(strip_title_noise("Plain Title"), "Plain Title");
    // Unbalanced brackets must not panic or eat the rest of the string.
    assert_eq!(strip_title_noise("Song (Official"), "Song (Official");
    assert_eq!(strip_title_noise("Song )stray("), "Song )stray(");
    // Whitespace left by a removed group is collapsed.
    assert_eq!(strip_title_noise("A  (official video)  B"), "A B");
}

#[test]
fn reduces_cover_uploads_to_the_original_song_name() {
    assert_eq!(
        song_title_only("【歌ってみた】人マニア / covered by ヰ世界情緒"),
        "人マニア"
    );
    assert_eq!(
        song_title_only("人マニア / covered by ヰ世界情緒"),
        "人マニア"
    );
    assert_eq!(song_title_only("Song (Cover)"), "Song");
    assert_eq!(song_title_only("Song 【cover】"), "Song");
    assert_eq!(song_title_only("Song - covered by Someone"), "Song");
    assert_eq!(song_title_only("「歌ってみた」Song"), "Song");
    // `Song / Artist` is a common Japanese upload convention.
    assert_eq!(song_title_only("人マニア / ヰ世界情緒"), "人マニア");
}

#[test]
fn strips_japanese_version_credits() {
    assert_eq!(song_title_only("ダーリン ver.わかばやし"), "ダーリン");
    assert_eq!(song_title_only("ダーリンver.わかばやし"), "ダーリン");
    assert_eq!(song_title_only("Song ver.Someone"), "Song");
    assert_eq!(song_title_only("Song ver: Someone"), "Song");
}

#[test]
fn version_marker_does_not_fire_mid_word() {
    // "Cover." contains "ver." — cutting there would leave "Co".
    assert_eq!(song_title_only("Cover.jp Anthem"), "Cover.jp Anthem");
    assert_eq!(song_title_only("Discover.me"), "Discover.me");
}

#[test]
fn strips_the_english_alias_youtube_music_appends() {
    // Real titles from the app log — lrclib stores only the original.
    assert_eq!(song_title_only("法螺話 - Tall Story"), "法螺話");
    assert_eq!(
        song_title_only("キャラクターT - Character T (feat. Kasane Teto)"),
        "キャラクターT"
    );
    assert_eq!(song_title_only("泡沫 - Utakata"), "泡沫");
    assert_eq!(song_title_only("千鳥 - Plover"), "千鳥");
    assert_eq!(song_title_only("食虫植物 - Carnivorous Plant"), "食虫植物");
    assert_eq!(
        song_title_only("ハナタバ - Hanataba (feat. KAFU)"),
        "ハナタバ"
    );
    assert_eq!(
        song_title_only("マインドブランド - Mind brand"),
        "マインドブランド"
    );
    // Punctuation inside the original title is part of it.
    assert_eq!(
        song_title_only("フィクションです。 - It’s Fiction."),
        "フィクションです。"
    );
    // A parenthesised alias is kept — only the trailing credit is cut.
    assert_eq!(
        song_title_only("逆さ月 (Reverse Moon) feat. asmi"),
        "逆さ月 (Reverse Moon)"
    );
}

#[test]
fn hyphen_split_needs_surrounding_spaces() {
    // A hyphenated word is not a field separator.
    assert_eq!(song_title_only("Twenty-One"), "Twenty-One");
    assert_eq!(song_title_only("Re-Education"), "Re-Education");
}

#[test]
fn strips_a_bare_by_credit_only_on_covers() {
    // Real title from the app log.
    assert_eq!(
        song_title_only("【歌ってみた】ドゥーマー by 花譜"),
        "ドゥーマー"
    );
    assert_eq!(song_title_only("Song (cover) by Someone"), "Song");

    // Without a cover marker, `by` is part of the name.
    assert_eq!(song_title_only("Stand By Me"), "Stand By Me");
    assert_eq!(song_title_only("Get By"), "Get By");
    assert_eq!(song_title_only("Drive By"), "Drive By");
}

#[test]
fn cover_marker_detection_ignores_substrings() {
    // "cover" inside another word must not make this look like a cover,
    // which would then license the `by` cut.
    assert!(!has_cover_marker("Undiscovered"));
    assert!(!has_cover_marker("Recovery"));
    assert!(has_cover_marker("Song (Cover)"));
    assert!(has_cover_marker("【歌ってみた】Song"));
    assert!(has_cover_marker("Song ver.X"));
    // A guest credit is not a cover, so it must not license the `by` cut.
    assert!(!has_cover_marker("Stand By Me feat. Someone"));
    assert_eq!(song_title_only("Stand By Me feat. Someone"), "Stand By Me");
    assert_eq!(
        song_title_only("Discovery by Daft Punk"),
        "Discovery by Daft Punk"
    );
}

#[test]
fn song_title_only_leaves_ordinary_titles_alone() {
    assert_eq!(song_title_only("Ribs"), "Ribs");
    assert_eq!(song_title_only("法螺話"), "法螺話");
    assert_eq!(song_title_only(""), "");
    // A kept multi-byte bracket group must not slice mid-character:
    // `】` is three bytes, so an inclusive range ends inside it.
    assert_eq!(
        strip_title_noise("【あいうえお】Song"),
        "【あいうえお】Song"
    );
    assert_eq!(song_title_only("「そら」Song"), "「そら」Song");
    // No panic on unbalanced or odd input.
    assert_eq!(song_title_only("Song (cover"), "Song (cover");
    song_title_only("【】");
    song_title_only("///");
    song_title_only("【】【】(((");
}

#[test]
fn cover_reduction_is_stricter_than_noise_stripping() {
    // strip_title_noise is used by the precise steps and must preserve a
    // qualifier that denotes a different recording; song_title_only is the
    // broad fallback and may discard it.
    let t = "法螺話(self cover)";
    assert_eq!(strip_title_noise(t), t);
    assert_eq!(song_title_only(t), "法螺話");
}

#[test]
fn normalises_youtube_artist_forms() {
    // YouTube's auto-generated channels are named "<artist> - Topic".
    assert_eq!(primary_artist("理芽 - Topic"), "理芽");
    // lrclib stores one artist per record, so a joined list matches nothing.
    assert_eq!(primary_artist("理芽, Guiano"), "理芽");
    assert_eq!(primary_artist("Lorde"), "Lorde");
    assert_eq!(primary_artist(""), "");
}

#[test]
fn a_marker_stands_at_a_boundary() {
    assert_eq!(find_at_boundary("song ver.x", "ver."), Some(5));
    assert_eq!(find_at_boundary("discover.me", "ver."), None);
    assert_eq!(find_at_boundary("ダーリンver.x", "ver."), Some(4));
    assert_eq!(find_at_boundary("cover. ver.", "ver."), Some(7));
}

#[test]
fn a_word_is_mentioned_whole() {
    assert!(mentions("song (cover)", "cover"));
    assert!(!mentions("undiscovered", "cover"));
    assert!(mentions("【歌ってみた】song", "歌ってみた"));
}

#[test]
fn a_title_in_capitals_is_read_in_lower_case() {
    assert_eq!(strip_title_noise("Song (OFFICIAL VIDEO)"), "Song");
    assert!(has_cover_marker("SONG (COVER)"));
    assert_eq!(primary_artist("Lorde; Someone - Topic"), "Lorde");
}

#[test]
fn a_noise_phrase_is_read_word_by_word() {
    assert_eq!(strip_title_noise("Song (Full Version)"), "Song");
    assert_eq!(strip_title_noise("Song (The Full   Version) B"), "Song B");
    assert_eq!(strip_title_noise("Song (Full Live Version)"), "Song (Full Live Version)");
    assert_eq!(strip_title_noise("Song (Full Versions)"), "Song (Full Versions)");
}

#[test]
fn cleaning_twice_is_cleaning_once() {
    for title in [
        "A  (official video)  B",
        " Song\t(Remix)  [MV](x",
        "(mv)(a  b)(mv) (unclosed  end",
        "【 ΑΣ  x 】「official」y",
    ] {
        let once = strip_title_noise(title);
        assert_eq!(strip_title_noise(&once), once);
    }
    assert_eq!(strip_title_noise(" Song\t(Remix)  [MV](x"), "Song (Remix) (x");
    assert_eq!(strip_title_noise("(mv)(a  b)(mv) (unclosed  end"), "(a b) (unclosed end");
}

#[test]
fn a_song_name_starts_the_bare_title() {
    let title = "Song Name (MV) / covered by Someone - Alias";
    let name = song_title_only(title);
    assert_eq!(name, "Song Name");
    assert!(strip_title_noise(title).starts_with(&name));
}
