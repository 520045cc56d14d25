use suono::pw_connections::{connect_to_channels, get_connected_channels, get_sink_channels, CaptureInput};

const LISTING: &str = "some_node:out\n\
  |-> x\n\
sink:playback_FL\n\
  |<- spotify:output_FL\n\
  |<- firefox:output_FL\n\
sink:playback_FR\n\
  |<- spotify:output_FR\n\
  |<- firefox:output_FR\n\
alsa_capture.suono:input_FL\n\
  |<- spotify:output_FL\n\
alsa_capture.suono:input_FR\n\
  |<- spotify:output_FR\n\
other:thing\n\
  |<- ignored:port\n";

fn listing() -> String {
    // `\` line continuations drop the leading spaces, so put them back.
    LISTING
        .lines()
        .map(|l| if l.starts_with("|") { format!("  {}", l) } else { l.to_string() })
        .collect::<Vec<_>>()
        .join("\n")
}

#[test]
fn sink_channels_are_split_in_halves() {
    let (left, right) = get_sink_channels(&listing());
    assert_eq!(left, vec!["spotify:output_FL".to_string(), "firefox:output_FL".to_string()]);
    assert_eq!(right, vec!["spotify:output_FR".to_string(), "firefox:output_FR".to_string()]);
}

#[test]
fn connected_channels() {
    let (left, right) = get_connected_channels(&listing());
    assert_eq!(left, vec!["spotify:output_FL".to_string()]);
    assert_eq!(right, vec!["spotify:output_FR".to_string()]);
}

#[test]
fn only_missing_links_are_planned() {
    let links = connect_to_channels(&listing());
    assert_eq!(links.len(), 2);
    assert_eq!(links[0].channel, "firefox:output_FL");
    assert_eq!(links[0].input, CaptureInput::FrontLeft);
    assert_eq!(links[1].channel, "firefox:output_FR");
    assert_eq!(links[1].input, CaptureInput::FrontRight);
    assert_eq!(links[0].input.port(), "alsa_capture.suono:input_FL");
    assert_eq!(links[1].input.port(), "alsa_capture.suono:input_FR");
}

#[test]
fn nothing_planned_when_all_linked() {
    let listing = "sink:playback_FL\n  |<- a:FL\nsink:playback_FR\n  |<- a:FR\n\
                   alsa_capture.suono:input_FL\n  |<- a:FL\nalsa_capture.suono:input_FR\n  |<- a:FR\n";
    assert!(connect_to_channels(&listing.to_string()).is_empty());
}

#[test]
fn no_suono_node_links_everything() {
    let listing = "sink:playback_FL\n  |<- a:FL\nsink:playback_FR\n  |<- a:FR\n".to_string();
    let (l, r) = get_connected_channels(&listing);
    assert!(l.is_empty() && r.is_empty());
    let links = connect_to_channels(&listing);
    assert_eq!(links.len(), 2);
    assert_eq!(links[0].channel, "a:FL");
    assert_eq!(links[1].channel, "a:FR");
}

#[test]
fn odd_number_of_sources_gives_the_extra_one_to_the_right() {
    let listing = "x sink:playback_FL\n  |<- a\n  |<- b\n  |<- c\n".to_string();
    let (l, r) = get_sink_channels(&listing);
    assert_eq!(l, vec!["a".to_string()]);
    assert_eq!(r, vec!["b".to_string(), "c".to_string()]);
}

#[test]
fn indented_mention_is_no_header() {
    let listing = " sink:playback_FL\n  |<- a\n".to_string();
    let (l, r) = get_sink_channels(&listing);
    assert!(l.is_empty() && r.is_empty());
}

#[test]
fn empty_listing() {
    assert!(connect_to_channels(&String::new()).is_empty());
}
