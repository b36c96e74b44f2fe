//! Online resources: playlists of a language, and what they list.
use vstd::prelude::*;

use crate::appui::SourceChoice;
#[allow(unused_imports)]
use vstd::utf8::{decode_utf8, valid_utf8};

verus! {

/// The playlist of what is broadcast in English.
pub const ENGLISH_PLAYLIST_URL: &'static str = "https://iptv-org.github.io/iptv/languages/eng.m3u";

/// The playlist of what is broadcast in Chinese.
pub const CHINESE_PLAYLIST_URL: &'static str = "https://iptv-org.github.io/iptv/languages/zho.m3u";

/// How many bytes of a playlist are read at most.
pub const PLAYLIST_BYTES: usize = 32768;

/// Something that can be played from the net.
#[derive(Debug)]
pub struct MediaResource {
    pub name: String,
}

/// The language of a playlist, if one is chosen.
#[derive(Debug, Clone, Copy, PartialEq, Eq, Hash, Structural)]
pub enum LanguageCategory {
    NoCategory,
    Chinese,
    English,
}

/// The row that shows one resource.
#[derive(Debug)]
pub struct SingleResourcePane {
    pub resource: MediaResource,
}

/// Whether a resource is played next.
pub open spec fn is_taken(clicked: bool, available: bool) -> bool {
    clicked && available
}

/// Whether what plays is live after the row of a resource was looked at.
pub open spec fn is_live(clicked: bool, available: bool, live_mode: bool) -> bool {
    is_taken(clicked, available) || live_mode
}

/// A resource is played when it is clicked while the sources can be changed, and is live then; else
/// what plays stays what it is.
pub proof fn law_resources_are_live(clicked: bool, available: bool, live_mode: bool)
    ensures
        is_taken(true, true) && is_live(true, true, live_mode),
        !is_taken(false, available) && is_live(false, available, live_mode) == live_mode,
        !is_taken(clicked, false) && is_live(clicked, false, live_mode) == live_mode,
{
}

impl SingleResourcePane {
    /// Makes the row of a resource.
    pub fn new(resource: MediaResource) -> (pane: SingleResourcePane)
        ensures
            pane.resource == resource,
    {
        SingleResourcePane { resource }
    }

    /// What is played next: the resource, if it was clicked while the sources could be changed. A
    /// resource is a live source.
    pub fn ui(&self, clicked: bool, available: bool, live_mode: bool) -> (choice: SourceChoice<
        String,
    >)
        ensures
            match choice.path {
                Some(path) => is_taken(clicked, available) && path@ == self.resource.name@,
                None => !is_taken(clicked, available),
            },
            choice.live_mode == is_live(clicked, available, live_mode),
    {
        if clicked && available {
            SourceChoice { path: Some(self.resource.name.clone()), live_mode: true }
        } else {
            SourceChoice { path: None, live_mode }
        }
    }
}

/// The names that some rows show.
pub open spec fn names_of(panes: Seq<SingleResourcePane>) -> Seq<Seq<char>> {
    panes.map_values(|pane: SingleResourcePane| pane.resource.name@)
}

/// Where a language is chosen.
#[derive(Debug, Clone, Copy, PartialEq, Eq, Structural)]
pub struct SelectableArea {
    pub language_category: LanguageCategory,
    /// Whether a playlist is still to be asked for.
    pub clicked: bool,
}

/// No language is chosen, so there is no playlist to ask for.
#[derive(Debug, Clone, Copy, PartialEq, Eq, Structural)]
pub struct NoCategorySelected;

impl SelectableArea {
    /// Makes an area in which nothing is chosen.
    pub fn new() -> (area: SelectableArea)
        ensures
            area == (SelectableArea {
                language_category: LanguageCategory::NoCategory,
                clicked: false,
            }),
    {
        SelectableArea { language_category: LanguageCategory::NoCategory, clicked: false }
    }

    /// The area when a language has been chosen.
    pub open spec fn selected(self, category: LanguageCategory) -> SelectableArea {
        SelectableArea {
            language_category: category,
            clicked: self.clicked || category != LanguageCategory::NoCategory,
        }
    }

    /// The area when it was seen whether a playlist is to be asked for.
    pub open spec fn asked(self, available: bool) -> SelectableArea {
        SelectableArea { clicked: self.clicked && !available, ..self }
    }

    /// The playlist that is to be asked for now.
    pub open spec fn request(self, available: bool) -> Option<LanguageCategory> {
        if self.clicked && available {
            Some(self.language_category)
        } else {
            None
        }
    }

    /// Chooses a language, and tells whether the resources are to be cleared. Where no language is
    /// chosen they are; otherwise the playlist of the language is still to be asked for.
    pub fn select(&mut self, category: LanguageCategory) -> (clear: bool)
        ensures
            *final(self) == old(self).selected(category),
            clear == (category == LanguageCategory::NoCategory),
    {
        self.language_category = category;
        match category {
            LanguageCategory::NoCategory => true,
            _ => {
                self.clicked = true;
                false
            },
        }
    }

    /// Tells which playlist is to be asked for now, if it can be asked for.
    pub fn take_request(&mut self, available: bool) -> (request: Option<LanguageCategory>)
        ensures
            *final(self) == old(self).asked(available),
            request == old(self).request(available),
    {
        if self.clicked && available {
            self.clicked = false;
            Some(self.language_category)
        } else {
            None
        }
    }

    /// Where the playlist of a language is found.
    pub fn playlist_url(category: LanguageCategory) -> (url: Result<
        &'static str,
        NoCategorySelected,
    >)
        ensures
            match url {
                Ok(url) => url@ == (if category == LanguageCategory::English {
                    ENGLISH_PLAYLIST_URL@
                } else {
                    CHINESE_PLAYLIST_URL@
                }) && category != LanguageCategory::NoCategory,
                Err(_) => category == LanguageCategory::NoCategory,
            },
    {
        match category {
            LanguageCategory::English => Ok(ENGLISH_PLAYLIST_URL),
            LanguageCategory::Chinese => Ok(CHINESE_PLAYLIST_URL),
            LanguageCategory::NoCategory => Err(NoCategorySelected),
        }
    }
}

/// The end of a line.
pub const LINE_FEED: u8 = 10;

/// What may stand before the end of a line.
pub const CARRIAGE_RETURN: u8 = 13;

/// How a comment or a tag begins.
pub const NUMBER_SIGN: u8 = 35;

/// What ends the name of a tag.
pub const COLON: u8 = 58;

/// The bytes before the first one that is `byte`, or all of them.
pub open spec fn before_first(bytes: Seq<u8>, byte: u8) -> Seq<u8> {
    match bytes.index_of_first(byte) {
        Some(at) => bytes.take(at),
        None => bytes,
    }
}

/// The first line, without its end.
pub open spec fn line_of(bytes: Seq<u8>) -> Seq<u8> {
    let line = before_first(bytes, LINE_FEED);
    if bytes.contains(LINE_FEED) && line.len() > 0 && line.last() == CARRIAGE_RETURN {
        line.drop_last()
    } else {
        line
    }
}

/// What comes after the first line.
pub open spec fn rest_of(bytes: Seq<u8>) -> Seq<u8> {
    match bytes.index_of_first(LINE_FEED) {
        Some(at) => bytes.skip(at + 1),
        None => Seq::empty(),
    }
}

/// A line of a playlist.
#[derive(Debug)]
pub enum PlaylistLine {
    /// There is no line.
    End,
    /// Something that can be played.
    Uri(String),
    /// An empty line.
    Blank,
    /// A tag or a comment.
    Other,
    /// A line that cannot be read.
    Failed,
}

/// The mathematical value of a `PlaylistLine`.
pub ghost enum LineValue {
    End,
    Uri(Seq<char>),
    Blank,
    Other,
    Failed,
}

impl View for PlaylistLine {
    type V = LineValue;

    open spec fn view(&self) -> LineValue {
        match self {
            PlaylistLine::End => LineValue::End,
            PlaylistLine::Uri(uri) => LineValue::Uri(uri@),
            PlaylistLine::Blank => LineValue::Blank,
            PlaylistLine::Other => LineValue::Other,
            PlaylistLine::Failed => LineValue::Failed,
        }
    }
}

/// Whether bytes begin as a tag does.
pub open spec fn is_tag(bytes: Seq<u8>) -> bool {
    bytes.len() >= 4 && bytes.take(4) == seq![NUMBER_SIGN, 69u8, 88u8, 84u8]
}

/// Whether a tag has a name that can be read, given what comes after its beginning.
pub open spec fn has_tag_name(bytes: Seq<u8>) -> bool {
    &&& bytes.len() > 0
    &&& bytes[0] != LINE_FEED
    &&& bytes[0] != CARRIAGE_RETURN
    &&& valid_utf8(before_first(line_of(bytes), COLON))
}

/// The first line of a playlist.
pub open spec fn first_line(bytes: Seq<u8>) -> LineValue {
    if bytes.len() == 0 {
        LineValue::End
    } else if is_tag(bytes) {
        if has_tag_name(bytes.skip(4)) {
            LineValue::Other
        } else {
            LineValue::Failed
        }
    } else if bytes[0] == NUMBER_SIGN {
        if valid_utf8(line_of(bytes.skip(1))) {
            LineValue::Other
        } else {
            LineValue::Failed
        }
    } else if !valid_utf8(line_of(bytes)) {
        LineValue::Failed
    } else if line_of(bytes).len() == 0 {
        LineValue::Blank
    } else {
        LineValue::Uri(decode_utf8(line_of(bytes)))
    }
}

/// Reads the first line of a playlist, and gives back what comes after it.
///
/// Trusted: `quick_m3u8::Reader::read_line`, on a reader made by `from_bytes` with the default
/// options, and `into_inner`. A line ends at a line feed, with a carriage return before it or not.
/// Without bytes there is no line. A line that begins with a number sign is a tag or a comment, any
/// other one is empty or an address. A line fails where what is read of it is not UTF-8: all of it,
/// but of a comment not the number sign, and of a tag only its name, which must not be missing. The
/// next line is left to be read, also after a line that failed.
#[verifier::external_body]
fn read_playlist_line<'a>(bytes: &'a [u8]) -> (read: (PlaylistLine, &'a [u8]))
    ensures
        read.0@ == first_line(bytes@),
        read.1@ == rest_of(bytes@),
{
    let options = quick_m3u8::config::ParsingOptions::default();
    let mut reader = quick_m3u8::Reader::from_bytes(bytes, options);
    let line = match reader.read_line() {
        Ok(None) => PlaylistLine::End,
        Ok(Some(quick_m3u8::HlsLine::Uri(uri))) => PlaylistLine::Uri(uri.to_string()),
        Ok(Some(quick_m3u8::HlsLine::Blank)) => PlaylistLine::Blank,
        Ok(Some(quick_m3u8::HlsLine::KnownTag(_))) => PlaylistLine::Other,
        Ok(Some(quick_m3u8::HlsLine::UnknownTag(_))) => PlaylistLine::Other,
        Ok(Some(quick_m3u8::HlsLine::Comment(_))) => PlaylistLine::Other,
        Err(_) => PlaylistLine::Failed,
    };
    (line, reader.into_inner())
}

/// What a playlist lists: its addresses, up to the first line that cannot be read.
pub open spec fn listed(bytes: Seq<u8>) -> Seq<Seq<char>>
    decreases bytes.len(),
{
    if bytes.len() == 0 {
        Seq::empty()
    } else {
        proof {
            lemma_rest_is_shorter(bytes);
        }
        match first_line(bytes) {
            LineValue::End => Seq::empty(),
            LineValue::Failed => Seq::empty(),
            LineValue::Uri(uri) => seq![uri] + listed(rest_of(bytes)),
            _ => listed(rest_of(bytes)),
        }
    }
}

/// What comes after the first line is shorter.
pub proof fn lemma_rest_is_shorter(bytes: Seq<u8>)
    requires
        bytes.len() > 0,
    ensures
        rest_of(bytes).len() < bytes.len(),
{
    bytes.index_of_first_ensures(LINE_FEED);
}

impl SelectableArea {
    /// Reads what a playlist lists.
    pub fn request_playlist(bytes: &[u8]) -> (resources: Vec<SingleResourcePane>)
        ensures
            names_of(resources@) == listed(bytes@),
    {
        let mut resources: Vec<SingleResourcePane> = Vec::new();
        let mut rest = bytes;
        assert(names_of(resources@) + listed(bytes@) =~= listed(bytes@));
        loop
            invariant_except_break
                names_of(resources@) + listed(rest@) == listed(bytes@),
            ensures
                names_of(resources@) == listed(bytes@),
            decreases rest@.len(),
        {
            let ghost before = rest@;
            let (line, after) = read_playlist_line(rest);
            rest = after;
            proof {
                if before.len() > 0 {
                    lemma_rest_is_shorter(before);
                }
            }
            match line {
                PlaylistLine::End => {
                    assert(names_of(resources@) =~= names_of(resources@) + listed(before));
                    break;
                },
                PlaylistLine::Failed => {
                    assert(names_of(resources@) =~= names_of(resources@) + listed(before));
                    break;
                },
                PlaylistLine::Uri(uri) => {
                    let ghost names = names_of(resources@);
                    resources.push(SingleResourcePane::new(MediaResource { name: uri }));
                    assert(names_of(resources@) =~= names.push(uri@));
                    assert(names_of(resources@) + listed(rest@) =~= names + listed(before));
                },
                _ => {},
            }
        }
        resources
    }
}

proof fn lemma_first_is_at(bytes: Seq<u8>, byte: u8, at: int)
    requires
        0 <= at < bytes.len(),
        bytes[at] == byte,
        forall|k: int| 0 <= k < at ==> bytes[k] != byte,
    ensures
        bytes.index_of_first(byte) == Some(at),
{
    bytes.index_of_first_ensures(byte);
}

/// A playlist that begins with an address lists that address, and then what the rest lists.
pub proof fn law_address_is_listed(line: Seq<u8>, rest: Seq<u8>)
    requires
        line.len() > 0,
        line[0] != NUMBER_SIGN,
        line.last() != CARRIAGE_RETURN,
        !line.contains(LINE_FEED),
        valid_utf8(line),
    ensures
        listed(line.push(LINE_FEED) + rest) == seq![decode_utf8(line)] + listed(rest),
{
    let bytes = line.push(LINE_FEED) + rest;
    let at = line.len() as int;
    assert forall|k: int| 0 <= k < at implies bytes[k] != LINE_FEED by {
        assert(bytes[k] == line[k]);
        assert(line.contains(line[k]));
    }
    assert(bytes[at] == LINE_FEED);
    assert(bytes.contains(LINE_FEED));
    lemma_first_is_at(bytes, LINE_FEED, at);
    assert(bytes.take(at) =~= line);
    assert(bytes.skip(at + 1) =~= rest);
    assert(bytes[0] == line[0]);
    if is_tag(bytes) {
        assert(bytes.take(4)[0] == NUMBER_SIGN);
    }
}

/// Comments, tags with a name and empty lines are passed over.
pub proof fn law_other_lines_are_passed_over(bytes: Seq<u8>)
    requires
        bytes.len() > 0,
        first_line(bytes) == LineValue::Other || first_line(bytes) == LineValue::Blank,
    ensures
        listed(bytes) == listed(rest_of(bytes)),
{
}

/// The playlist of a chosen language is asked for as soon as it can be, and only once; until then
/// the wish stays. To choose no language asks for nothing.
pub proof fn law_choice_is_asked_once(area: SelectableArea, category: LanguageCategory)
    requires
        category != LanguageCategory::NoCategory,
    ensures
        area.selected(category).request(true) == Some(category),
        area.selected(category).request(false) is None,
        area.selected(category).asked(false) == area.selected(category),
        area.selected(category).asked(true).request(true) is None,
        area.selected(category).asked(true).language_category == category,
        !area.clicked ==> area.selected(LanguageCategory::NoCategory).request(true) is None,
        area.selected(LanguageCategory::NoCategory).language_category == LanguageCategory::NoCategory,
{
}

proof fn lemma_line_parts(line: Seq<u8>, rest: Seq<u8>)
    requires
        !line.contains(10u8),
    ensures
        ({
            let bytes = line.push(10u8) + rest;
            &&& rest_of(bytes) == rest
            &&& before_first(bytes, 10u8) == line
            &&& bytes.contains(10u8)
            &&& line.len() == 0 || line[line.len() - 1] != 13 ==> line_of(bytes) == line
        }),
{
    let bytes = line.push(10u8) + rest;
    let at = line.len() as int;
    assert forall|k: int| 0 <= k < at implies bytes[k] != 10 by {
        assert(bytes[k] == line[k]);
        assert(line.contains(line[k]));
    }
    assert(bytes[at] == 10);
    lemma_first_is_at(bytes, 10u8, at);
    assert(bytes.take(at) =~= line);
    assert(bytes.skip(at + 1) =~= rest);
}

/// An address is listed the same whether its line ends in a line feed alone or with a carriage
/// return before it.
pub proof fn law_carriage_return_is_dropped(line: Seq<u8>, rest: Seq<u8>)
    requires
        line.len() > 0,
        line[0] != 35,
        !line.contains(10u8),
        valid_utf8(line),
    ensures
        listed(line.push(13u8).push(10u8) + rest) == seq![decode_utf8(line)] + listed(rest),
{
    let returned = line.push(13u8);
    let bytes = returned.push(10u8) + rest;
    assert(!returned.contains(10u8)) by {
        assert forall|k: int| 0 <= k < returned.len() implies returned[k] != 10 by {
            if k < line.len() {
                assert(line.contains(line[k]));
            }
        }
    }
    lemma_line_parts(returned, rest);
    assert(returned.drop_last() =~= line);
    assert(bytes[0] == line[0]);
    if is_tag(bytes) {
        assert(bytes.take(4)[0] == 35);
    }
}

/// An address at the end needs no line feed, and nothing follows it.
pub proof fn law_last_address_is_listed(line: Seq<u8>)
    requires
        line.len() > 0,
        line[0] != 35,
        !line.contains(10u8),
        valid_utf8(line),
    ensures
        listed(line) == seq![decode_utf8(line)],
        listed(Seq::<u8>::empty()).len() == 0,
{
    line.index_of_first_ensures(10u8);
    if is_tag(line) {
        assert(line.take(4)[0] == 35);
    }
    assert(listed(rest_of(line)) =~= Seq::empty());
}

/// A comment lists nothing and stops nothing: a line that begins with a number sign, and is text,
/// is passed over. So is a tag, such as those with the name of a channel, whose own name is text,
/// and an empty line.
pub proof fn law_comments_list_nothing(line: Seq<u8>, rest: Seq<u8>)
    requires
        !line.contains(10u8),
        line.len() > 0 ==> line[line.len() - 1] != 13,
    ensures
        line.len() == 0 ==> listed(line.push(10u8) + rest) == listed(rest),
        line.len() > 0 && line[0] == 35 && !(line.len() >= 4 && line[1] == 69 && line[2] == 88 && line[3]
            == 84) && valid_utf8(line.skip(1)) ==> listed(line.push(10u8) + rest) == listed(rest),
        line.len() > 4 && line[0] == 35 && line[1] == 69 && line[2] == 88 && line[3] == 84 && line[4]
            != 13 && !line.contains(58u8) && valid_utf8(line.skip(4)) ==> listed(
            line.push(10u8) + rest,
        ) == listed(rest),
{
    let bytes = line.push(10u8) + rest;
    lemma_line_parts(line, rest);
    if line.len() == 0 {
        assert(line =~= Seq::empty());
        assert(bytes[0] == 10);
        if is_tag(bytes) {
            assert(bytes.take(4)[0] == 35);
        }
        lemma_empty_is_text();
    } else if line[0] == 35 && !(line.len() >= 4 && line[1] == 69 && line[2] == 88 && line[3] == 84)
        && valid_utf8(line.skip(1)) {
        let body = line.skip(1);
        assert(!body.contains(10u8)) by {
            assert forall|k: int| 0 <= k < body.len() implies body[k] != 10 by {
                assert(line.contains(line[k + 1]));
            }
        }
        lemma_line_parts(body, rest);
        assert(bytes.skip(1) =~= body.push(10u8) + rest);
        assert(bytes[0] == 35);
        if is_tag(bytes) {
            let four = bytes.take(4);
            assert(four[1] == 69 && four[2] == 88 && four[3] == 84);
            assert(forall|k: int| 0 <= k < line.len() ==> bytes[k] == #[trigger] line[k]);
            if line.len() == 1 {
                assert(bytes[1] == 10);
            } else if line.len() == 2 {
                assert(bytes[2] == 10);
            } else if line.len() == 3 {
                assert(bytes[3] == 10);
            }
        }
        if body.len() > 0 {
            assert(body[body.len() - 1] == line[line.len() - 1]);
        }
    } else if line.len() > 4 && line[0] == 35 && line[1] == 69 && line[2] == 88 && line[3] == 84
        && line[4] != 13 && !line.contains(58u8) && valid_utf8(line.skip(4)) {
        let body = line.skip(4);
        assert(!body.contains(10u8)) by {
            assert forall|k: int| 0 <= k < body.len() implies body[k] != 10 by {
                assert(line.contains(line[k + 4]));
            }
        }
        lemma_line_parts(body, rest);
        assert(bytes.skip(4) =~= body.push(10u8) + rest);
        assert(bytes.take(4) =~= seq![35u8, 69u8, 88u8, 84u8]);
        assert(body[body.len() - 1] == line[line.len() - 1]);
        assert(!body.contains(58u8)) by {
            assert forall|k: int| 0 <= k < body.len() implies body[k] != 58 by {
                assert(line.contains(line[k + 4]));
            }
        }
        body.index_of_first_ensures(58u8);
        assert(line.contains(line[4]));
        assert(bytes.skip(4)[0] == line[4]);
    }
}

/// A tag with a value, such as the one that names a channel, is passed over where its own name, up
/// to the first colon, is text, whatever the value holds. A tag without a name ends the list.
pub proof fn law_tags_list_nothing(line: Seq<u8>, rest: Seq<u8>, colon: int)
    requires
        !line.contains(10u8),
        line.len() >= 4,
        line[0] == 35 && line[1] == 69 && line[2] == 88 && line[3] == 84,
    ensures
        4 < colon < line.len() && line[colon] == 58 && (forall|k: int|
            4 <= k < colon ==> line[k] != 58) && line[4] != 13 && valid_utf8(line.subrange(4, colon))
            ==> listed(line.push(10u8) + rest) == listed(rest),
        line.len() == 4 ==> listed(line.push(10u8) + rest).len() == 0,
{
    let bytes = line.push(10u8) + rest;
    let body = line.skip(4);
    lemma_line_parts(line, rest);
    assert(!body.contains(10u8)) by {
        assert forall|k: int| 0 <= k < body.len() implies body[k] != 10 by {
            assert(line.contains(line[k + 4]));
        }
    }
    lemma_line_parts(body, rest);
    assert(bytes.skip(4) =~= body.push(10u8) + rest);
    assert(bytes.take(4) =~= seq![35u8, 69u8, 88u8, 84u8]);
    if 4 < colon < line.len() && line[colon] == 58 && (forall|k: int| 4 <= k < colon ==> line[k] != 58)
        && line[4] != 13 && valid_utf8(line.subrange(4, colon)) {
        assert(line.contains(line[4]));
        assert(bytes.skip(4)[0] == line[4]);
        let read = line_of(bytes.skip(4));
        let at = colon - 4;
        assert(read == body || body.len() > 0 && body.last() == 13 && read == body.drop_last());
        if read.len() <= at {
            assert(body.last() == line[line.len() - 1]);
            assert(line[colon] == 13);
        }
        assert forall|k: int| 0 <= k < at implies read[k] != 58 by {
            assert(read[k] == line[k + 4]);
        }
        assert(read[at] == 58);
        lemma_first_is_at(read, 58u8, at);
        assert(read.take(at) =~= line.subrange(4, colon));
    }
    if line.len() == 4 {
        assert(bytes.skip(4)[0] == 10);
    }
}

proof fn lemma_empty_is_text()
    ensures
        valid_utf8(Seq::<u8>::empty()),
{
}

/// A line that is neither a comment nor text ends the list.
pub proof fn law_unreadable_line_ends_list(line: Seq<u8>, rest: Seq<u8>)
    requires
        line.len() > 0,
        line[0] != 35,
        line[line.len() - 1] != 13,
        !line.contains(10u8),
        !valid_utf8(line),
    ensures
        listed(line.push(10u8) + rest).len() == 0,
{
    let bytes = line.push(10u8) + rest;
    lemma_line_parts(line, rest);
    assert(bytes[0] == line[0]);
    if is_tag(bytes) {
        assert(bytes.take(4)[0] == 35);
    }
}

} // verus!
