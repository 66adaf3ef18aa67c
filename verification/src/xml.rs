//! The tags of an XML document, read by the crate `quick_xml`, and the text of their attributes.

use crate::text;
use quick_xml::events::{BytesStart, Event};
use quick_xml::Reader;
use vstd::prelude::*;
use vstd::string::*;

verus! {

/// The reader of `quick_xml`.
#[verifier::external_type_specification]
#[verifier::external_body]
#[verifier::reject_recursive_types(R)]
pub struct ExReader<R>(Reader<R>);

/// A start tag or an empty tag, as `quick_xml` holds it.
#[verifier::external_type_specification]
#[verifier::external_body]
pub struct ExBytesStart<'a>(BytesStart<'a>);

/// One thing that a reader comes upon: a start tag or an empty tag, with its name and with its
/// attributes, each of them a key and a value or not well formed; or something else.
pub ghost enum XmlItem {
    Tag { name: Seq<u8>, attributes: Seq<Option<(Seq<u8>, Seq<u8>)>> },
    Other,
}

/// What a reader of `text` comes upon before the end of the document.
pub uninterp spec fn xml_items(text: Seq<char>) -> Seq<XmlItem>;

/// What a reader has still to come upon before the end of the document.
pub uninterp spec fn unread(reader: Reader<&[u8]>) -> Seq<XmlItem>;

/// The number of opening angle brackets in what a reader has not read yet.
pub uninterp spec fn brackets_left(reader: Reader<&[u8]>) -> nat;

/// The number of opening angle brackets in a text.
pub open spec fn brackets(text: Seq<char>) -> nat
    decreases text.len(),
{
    if text.len() == 0 {
        0
    } else if text.last() == '<' {
        brackets(text.drop_last()) + 1
    } else {
        brackets(text.drop_last())
    }
}

/// Whether a text can be read: the reader counts in 32 signed bits how many of the angle brackets
/// in a document type declaration are open, so there must not be more of them than that counts.
pub open spec fn readable(text: Seq<char>) -> bool {
    brackets(text) <= i32::MAX
}

/// Whether a text can be read.
pub fn is_readable(text: &str) -> (yes: bool)
    ensures
        yes == readable(text@),
{
    let chars: Vec<char> = text::chars_of(text);
    let mut n: usize = 0;
    let mut i: usize = 0;
    assert(chars@.take(0) =~= seq![]);
    while i < chars.len()
        invariant
            i <= chars@.len(),
            n <= i,
            n == brackets(chars@.take(i as int)),
        decreases chars@.len() - i,
    {
        assert(chars@.take(i + 1).drop_last() =~= chars@.take(i as int));
        assert(chars@.take(i + 1).last() == chars@[i as int]);
        if chars[i] == '<' {
            n += 1;
        }
        i += 1;
    }
    assert(chars@.take(chars@.len() as int) =~= text@);
    n <= 0x7fff_ffff
}

/// A text of at most that many characters can be read.
pub proof fn law_short_text_is_readable(text: Seq<char>)
    requires
        text.len() <= i32::MAX,
    ensures
        readable(text),
{
    lemma_brackets_are_within_text(text);
}

proof fn lemma_brackets_are_within_text(text: Seq<char>)
    ensures
        brackets(text) <= text.len(),
    decreases text.len(),
{
    if text.len() > 0 {
        lemma_brackets_are_within_text(text.drop_last());
    }
}

/// The name of a tag.
pub uninterp spec fn tag_name(tag: BytesStart<'static>) -> Seq<u8>;

/// The attributes of a tag, each a key and a value, or `None` where it is not well formed.
pub uninterp spec fn tag_attributes(tag: BytesStart<'static>) -> Seq<Option<(Seq<u8>, Seq<u8>)>>;

/// Calls `Reader::from_str`: a reader at the start of `text`. What it will come upon depends on the
/// text alone. All of its opening brackets are ahead of it.
#[verifier::external_body]
pub(crate) fn reader_of<'a>(text: &'a str) -> (reader: Reader<&'a [u8]>)
    ensures
        unread(reader) == xml_items(text@),
        brackets_left(reader) == brackets(text@),
{
    Reader::from_str(text)
}

/// What a reader came upon.
pub enum XmlEvent {
    Tag(BytesStart<'static>),
    End,
    Other,
}

/// Calls `Reader::read_event_into`: hands out what comes next and moves on behind it. A start tag
/// and an empty tag are handed out as they are; an error counts as something else, and reading goes
/// on behind it or ends with it. Once at the end of the document the reader stays there. It never
/// goes back, so no bracket comes before it again. In a document type declaration it counts the
/// open brackets in an `i32`, adding one for each opening one, and that overflows where more are
/// ahead of it than `i32::MAX`.
#[verifier::external_body]
pub(crate) fn next_event(reader: &mut Reader<&[u8]>) -> (event: XmlEvent)
    requires
        brackets_left(*old(reader)) <= i32::MAX,
    ensures
        brackets_left(*final(reader)) <= brackets_left(*old(reader)),
        match event {
            XmlEvent::End => unread(*old(reader)).len() == 0 && unread(*final(reader)).len() == 0,
            XmlEvent::Tag(tag) => {
                &&& unread(*old(reader)).len() > 0
                &&& unread(*old(reader))[0] == (XmlItem::Tag {
                    name: tag_name(tag),
                    attributes: tag_attributes(tag),
                })
                &&& unread(*final(reader)) == unread(*old(reader)).skip(1)
            },
            XmlEvent::Other => {
                &&& unread(*old(reader)).len() > 0
                &&& unread(*old(reader))[0] == XmlItem::Other
                &&& unread(*final(reader)) == unread(*old(reader)).skip(1)
            },
        },
{
    let mut buffer = Vec::new();
    match reader.read_event_into(&mut buffer) {
        Ok(Event::Start(tag)) => XmlEvent::Tag(tag.into_owned()),
        Ok(Event::Empty(tag)) => XmlEvent::Tag(tag.into_owned()),
        Ok(Event::Eof) => XmlEvent::End,
        _ => XmlEvent::Other,
    }
}

/// Calls `BytesStart::name`: the bytes of the tag's name.
#[verifier::external_body]
pub(crate) fn name_of(tag: &BytesStart<'static>) -> (name: Vec<u8>)
    ensures
        name@ == tag_name(*tag),
{
    tag.name().as_ref().to_vec()
}

/// The bytes of attributes that were copied out of a tag.
pub open spec fn attribute_views(list: Seq<Option<(Vec<u8>, Vec<u8>)>>) -> Seq<
    Option<(Seq<u8>, Seq<u8>)>,
> {
    list.map_values(
        |a: Option<(Vec<u8>, Vec<u8>)>|
            match a {
                Some(pair) => Some((pair.0@, pair.1@)),
                None => None,
            },
    )
}

/// Calls `BytesStart::attributes`: the key and the raw value of each attribute in their order, and
/// `None` in the place of each error.
#[verifier::external_body]
pub(crate) fn attributes_of(tag: &BytesStart<'static>) -> (attributes: Vec<
    Option<(Vec<u8>, Vec<u8>)>,
>)
    ensures
        attribute_views(attributes@) == tag_attributes(*tag),
{
    tag.attributes()
        .map(|a| a.ok().map(|a| (a.key.as_ref().to_vec(), a.value.into_owned())))
        .collect()
}

/// A start tag or an empty tag: its name, and its well-formed attributes as keys and raw values.
#[derive(Debug)]
pub struct Tag {
    pub name: Vec<u8>,
    pub attributes: Vec<(Vec<u8>, Vec<u8>)>,
}

/// What a [`Tag`] holds.
pub ghost struct TagModel {
    pub name: Seq<u8>,
    pub attributes: Seq<(Seq<u8>, Seq<u8>)>,
}

/// The bytes of a list of attributes.
pub open spec fn pairs(list: Seq<(Vec<u8>, Vec<u8>)>) -> Seq<(Seq<u8>, Seq<u8>)> {
    list.map_values(|a: (Vec<u8>, Vec<u8>)| (a.0@, a.1@))
}

impl View for Tag {
    type V = TagModel;

    open spec fn view(&self) -> TagModel {
        TagModel { name: self.name@, attributes: pairs(self.attributes@) }
    }
}

/// What the tags of a list hold.
pub open spec fn tag_models(list: Seq<Tag>) -> Seq<TagModel> {
    list.map_values(|t: Tag| t@)
}

/// The well-formed ones among attributes, in their order.
pub open spec fn well_formed(attributes: Seq<Option<(Seq<u8>, Seq<u8>)>>) -> Seq<
    (Seq<u8>, Seq<u8>),
>
    decreases attributes.len(),
{
    if attributes.len() == 0 {
        seq![]
    } else {
        match attributes.last() {
            Some(pair) => well_formed(attributes.drop_last()).push(pair),
            None => well_formed(attributes.drop_last()),
        }
    }
}

/// The tags among what a reader comes upon, in their order.
pub open spec fn tags_among(items: Seq<XmlItem>) -> Seq<TagModel>
    decreases items.len(),
{
    if items.len() == 0 {
        seq![]
    } else {
        match items.last() {
            XmlItem::Tag { name, attributes } => tags_among(items.drop_last()).push(
                TagModel { name, attributes: well_formed(attributes) },
            ),
            XmlItem::Other => tags_among(items.drop_last()),
        }
    }
}

/// The tags of a document, in their order.
pub open spec fn document_tags(text: Seq<char>) -> Seq<TagModel> {
    tags_among(xml_items(text))
}

fn keep_well_formed(attributes: Vec<Option<(Vec<u8>, Vec<u8>)>>) -> (kept: Vec<(Vec<u8>, Vec<u8>)>)
    ensures
        pairs(kept@) == well_formed(attribute_views(attributes@)),
{
    let mut kept: Vec<(Vec<u8>, Vec<u8>)> = Vec::new();
    let ghost views = attribute_views(attributes@);
    let mut i: usize = 0;
    assert(pairs(kept@) =~= well_formed(views.take(0)));
    while i < attributes.len()
        invariant
            i <= attributes@.len(),
            views == attribute_views(attributes@),
            pairs(kept@) == well_formed(views.take(i as int)),
        decreases attributes@.len() - i,
    {
        let ghost before = kept@;
        assert(views.take(i + 1).drop_last() =~= views.take(i as int));
        assert(views.take(i + 1).last() == views[i as int]);
        if let Some(pair) = &attributes[i] {
            let key: Vec<u8> = pair.0.clone();
            let value: Vec<u8> = pair.1.clone();
            kept.push((key, value));
            assert(key@ =~= pair.0@);
            assert(value@ =~= pair.1@);
            assert(pairs(kept@) =~= pairs(before).push((pair.0@, pair.1@)));
        }
        i += 1;
    }
    assert(views.take(views.len() as int) =~= views);
    kept
}

/// The tags of a document, in their order. What is not well formed is passed over.
pub fn read_tags(text: &str) -> (tags: Vec<Tag>)
    requires
        readable(text@),
    ensures
        tag_models(tags@) == document_tags(text@),
{
    let mut reader = reader_of(text);
    let mut tags: Vec<Tag> = Vec::new();
    let ghost items = xml_items(text@);
    let ghost mut n: int = 0;
    assert(items.skip(0) =~= items);
    assert(tag_models(tags@) =~= tags_among(items.take(0)));
    loop
        invariant_except_break
            0 <= n <= items.len(),
            unread(reader) == items.skip(n),
            brackets_left(reader) <= i32::MAX,
            tag_models(tags@) == tags_among(items.take(n)),
        ensures
            tag_models(tags@) == tags_among(items),
        decreases unread(reader).len(),
    {
        let ghost before = tags@;
        match next_event(&mut reader) {
            XmlEvent::End => {
                assert(items.take(n) =~= items);
                break ;
            },
            XmlEvent::Tag(tag) => {
                let name: Vec<u8> = name_of(&tag);
                let attributes: Vec<(Vec<u8>, Vec<u8>)> = keep_well_formed(attributes_of(&tag));
                let read = Tag { name, attributes };
                tags.push(read);
                proof {
                    assert(items.take(n + 1).drop_last() =~= items.take(n));
                    assert(items.take(n + 1).last() == items.skip(n)[0]);
                    assert(tag_models(tags@) =~= tag_models(before).push(read@));
                    assert(items.skip(n).skip(1) =~= items.skip(n + 1));
                    n = n + 1;
                }
            },
            XmlEvent::Other => {
                proof {
                    assert(items.take(n + 1).drop_last() =~= items.take(n));
                    assert(items.take(n + 1).last() == items.skip(n)[0]);
                    assert(items.skip(n).skip(1) =~= items.skip(n + 1));
                    n = n + 1;
                }
            },
        }
    }
    tags
}

/// Whether the bytes spell an ASCII name.
pub open spec fn spells(bytes: Seq<u8>, name: Seq<char>) -> bool {
    bytes.len() == name.len() && forall|i: int|
        0 <= i < bytes.len() ==> (#[trigger] bytes[i]) as char == name[i]
}

fn is_spelled(bytes: &Vec<u8>, name: &str) -> (yes: bool)
    ensures
        yes == spells(bytes@, name@),
{
    let chars: Vec<char> = text::chars_of(name);
    if bytes.len() != chars.len() {
        return false;
    }
    let mut i: usize = 0;
    while i < bytes.len()
        invariant
            i <= bytes@.len(),
            bytes@.len() == chars@.len(),
            chars@ == name@,
            forall|j: int| 0 <= j < i ==> (#[trigger] bytes@[j]) as char == chars@[j],
        decreases bytes@.len() - i,
    {
        if bytes[i] as char != chars[i] {
            return false;
        }
        i += 1;
    }
    true
}

/// The raw value of the first attribute with a name.
pub open spec fn raw_value(attributes: Seq<(Seq<u8>, Seq<u8>)>, key: Seq<char>) -> Option<Seq<u8>>
    decreases attributes.len(),
{
    if attributes.len() == 0 {
        None
    } else if spells(attributes[0].0, key) {
        Some(attributes[0].1)
    } else {
        raw_value(attributes.skip(1), key)
    }
}

/// The number of characters before the first semicolon, all of them where there is none.
pub open spec fn entity_length(s: Seq<char>) -> nat
    decreases s.len(),
{
    if s.len() == 0 || s[0] == ';' {
        0
    } else {
        1 + entity_length(s.skip(1))
    }
}

/// The character with a number: none where it is a surrogate or above U+10FFFF.
pub open spec fn numbered(code: int) -> Option<char> {
    if 0 <= code < 0xd800 || 0xe000 <= code <= 0x10ffff {
        Some(code as char)
    } else {
        None
    }
}

/// `char::from_u32` gives the character with a number, `None` where there is none.
pub assume_specification[ char::from_u32 ](code: u32) -> (c: Option<char>)
    ensures
        c == numbered(code as int),
;

/// The character that a numeric reference stands for; `number` is what follows the number sign, in
/// hexadecimal behind an `x`, else in decimal.
pub open spec fn referenced(number: Seq<char>) -> Option<char> {
    let code = if number.len() > 0 && number[0] == 'x' {
        text::number_value(number.skip(1), 16, u32::MAX as int)
    } else {
        text::number_value(number, 10, u32::MAX as int)
    };
    match code {
        Some(n) => numbered(n),
        None => None,
    }
}

/// The text of an entity, given by what stands between the ampersand and the semicolon. A reference
/// to no character is dropped. What is no entity stays, with a semicolon behind it.
pub open spec fn entity_text(entity: Seq<char>) -> Seq<char> {
    if entity == "amp"@ {
        seq!['&']
    } else if entity == "lt"@ {
        seq!['<']
    } else if entity == "gt"@ {
        seq!['>']
    } else if entity == "quot"@ {
        seq!['"']
    } else if entity == "apos"@ {
        seq!['\'']
    } else if entity.len() > 0 && entity[0] == '#' {
        match referenced(entity.skip(1)) {
            Some(c) => seq![c],
            None => seq![],
        }
    } else {
        seq!['&'] + entity + seq![';']
    }
}

/// A text with its entities replaced. An entity goes from an ampersand to the next semicolon, or to
/// the end of the text.
pub open spec fn decoded(s: Seq<char>) -> Seq<char>
    decreases s.len(),
{
    if s.len() == 0 {
        seq![]
    } else if s[0] != '&' {
        seq![s[0]] + decoded(s.skip(1))
    } else {
        let n = entity_length(s.skip(1)) as int;
        entity_text(s.subrange(1, 1 + n)) + decoded(s.skip(if 2 + n <= s.len() {
            2 + n
        } else {
            s.len() as int
        }))
    }
}

fn push_reference(out: &mut String, entity: &Vec<char>)
    requires
        entity@.len() > 0,
    ensures
        final(out)@ == old(out)@ + (match referenced(entity@.skip(1)) {
            Some(c) => seq![c],
            None => seq![],
        }),
{
    let ghost number = entity@.skip(1);
    let hexadecimal: bool = entity.len() > 1 && entity[1] == 'x';
    let from: usize = if hexadecimal {
        2
    } else {
        1
    };
    let mut digits: String = String::new();
    let mut i: usize = from;
    while i < entity.len()
        invariant
            from <= i <= entity@.len(),
            digits@ == entity@.subrange(from as int, i as int),
        decreases entity@.len() - i,
    {
        digits.push(entity[i]);
        i += 1;
        assert(entity@.subrange(from as int, i as int) =~= entity@.subrange(
            from as int,
            i - 1,
        ).push(entity@[i - 1]));
    }
    let radix: u64 = if hexadecimal {
        16
    } else {
        10
    };
    proof {
        if hexadecimal {
            assert(number.skip(1) =~= digits@);
        } else {
            assert(number =~= digits@);
        }
    }
    if let Some(code) = text::parse_number(digits.as_str(), radix, u32::MAX as u64) {
        if let Some(c) = char::from_u32(code as u32) {
            out.push(c);
            assert(out@ =~= old(out)@ + seq![c]);
            return;
        }
    }
    assert(out@ =~= old(out)@ + Seq::<char>::empty());
}

fn push_entity(out: &mut String, entity: &Vec<char>)
    ensures
        final(out)@ == old(out)@ + entity_text(entity@),
{
    let name: String = text::string_of(entity);
    if text::same_text(name.as_str(), "amp") {
        out.push('&');
    } else if text::same_text(name.as_str(), "lt") {
        out.push('<');
    } else if text::same_text(name.as_str(), "gt") {
        out.push('>');
    } else if text::same_text(name.as_str(), "quot") {
        out.push('"');
    } else if text::same_text(name.as_str(), "apos") {
        out.push('\'');
    } else if entity.len() > 0 && entity[0] == '#' {
        push_reference(out, entity);
    } else {
        out.push('&');
        out.append(name.as_str());
        out.push(';');
    }
    assert(out@ =~= old(out)@ + entity_text(entity@));
}

/// Replaces the entities of a text: `&amp;`, `&lt;`, `&gt;`, `&quot;`, `&apos;`, and numeric
/// references in decimal and hexadecimal.
pub fn decode_entities(s: &str) -> (out: String)
    ensures
        out@ == decoded(s@),
{
    let chars: Vec<char> = text::chars_of(s);
    let mut out: String = String::new();
    let mut i: usize = 0;
    assert(s@.skip(0) =~= s@);
    assert(out@ + decoded(s@.skip(0)) =~= decoded(s@));
    while i < chars.len()
        invariant
            i <= chars@.len(),
            chars@ == s@,
            out@ + decoded(s@.skip(i as int)) == decoded(s@),
        decreases chars@.len() - i,
    {
        let ghost rest = s@.skip(i as int);
        let ghost before = out@;
        if chars[i] != '&' {
            out.push(chars[i]);
            i += 1;
            proof {
                assert(rest.skip(1) =~= s@.skip(i as int));
                assert(out@ + decoded(rest.skip(1)) =~= before + (seq![rest[0]] + decoded(
                    rest.skip(1),
                )));
            }
        } else {
            let start: usize = i + 1;
            let mut j: usize = start;
            let mut entity: Vec<char> = Vec::new();
            proof {
                assert(rest.skip(1) =~= s@.skip(start as int));
            }
            while j < chars.len() && chars[j] != ';'
                invariant
                    start <= j <= chars@.len(),
                    chars@ == s@,
                    entity@ == s@.subrange(start as int, j as int),
                    entity_length(s@.skip(start as int)) == j - start + entity_length(
                        s@.skip(j as int),
                    ),
                decreases chars@.len() - j,
            {
                entity.push(chars[j]);
                proof {
                    assert(s@.skip(j as int).skip(1) =~= s@.skip(j + 1));
                    assert(s@.subrange(start as int, j + 1) =~= s@.subrange(
                        start as int,
                        j as int,
                    ).push(s@[j as int]));
                }
                j += 1;
            }
            push_entity(&mut out, &entity);
            i = if j < chars.len() {
                j + 1
            } else {
                j
            };
            proof {
                let n = entity_length(rest.skip(1)) as int;
                assert(n == j - start);
                assert(rest.subrange(1, 1 + n) =~= entity@);
                let next = if 2 + n <= rest.len() {
                    2 + n
                } else {
                    rest.len() as int
                };
                assert(rest.skip(next) =~= s@.skip(i as int));
                assert(out@ + decoded(rest.skip(next)) =~= before + (entity_text(entity@)
                    + decoded(rest.skip(next))));
            }
        }
    }
    assert(s@.skip(i as int) =~= seq![]);
    assert(out@ + decoded(s@.skip(i as int)) =~= out@);
    out
}

impl TagModel {
    /// The text of the first attribute with a name, with its entities replaced; empty where there
    /// is no such attribute.
    pub open spec fn attribute(self, key: Seq<char>) -> Seq<char> {
        match raw_value(self.attributes, key) {
            Some(raw) => decoded(text::text_of(raw)),
            None => seq![],
        }
    }

    /// The number that an attribute spells; zero where it spells none up to `max`.
    pub open spec fn number(self, key: Seq<char>, max: int) -> int {
        match text::number_value(self.attribute(key), 10, max) {
            Some(n) => n,
            None => 0,
        }
    }
}

impl Tag {
    /// Whether the tag has the given name.
    pub fn is_named(&self, name: &str) -> (yes: bool)
        ensures
            yes == spells(self@.name, name@),
    {
        is_spelled(&self.name, name)
    }

    /// The text of an attribute, with its entities replaced; empty where there is no such
    /// attribute.
    pub fn attr_str(&self, key: &str) -> (value: String)
        ensures
            value@ == self@.attribute(key@),
    {
        let ghost all = self@.attributes;
        let mut i: usize = 0;
        assert(all.skip(0) =~= all);
        while i < self.attributes.len()
            invariant
                i <= self.attributes@.len(),
                all == pairs(self.attributes@),
                raw_value(all, key@) == raw_value(all.skip(i as int), key@),
            decreases self.attributes@.len() - i,
        {
            assert(all.skip(i as int)[0] == all[i as int]);
            if is_spelled(&self.attributes[i].0, key) {
                let raw: String = text::read_text(self.attributes[i].1.as_slice());
                return decode_entities(raw.as_str());
            }
            assert(all.skip(i as int).skip(1) =~= all.skip(i + 1));
            i += 1;
        }
        assert(all.skip(i as int) =~= seq![]);
        String::new()
    }

    /// The number that an attribute spells; zero where it spells none.
    pub fn attr_u64(&self, key: &str) -> (value: u64)
        ensures
            value == self@.number(key@, u64::MAX as int),
    {
        let value: String = self.attr_str(key);
        match text::parse_number(value.as_str(), 10, u64::MAX) {
            Some(n) => n,
            None => 0,
        }
    }

    /// The number of 32 bits that an attribute spells; zero where it spells none.
    pub fn attr_u32(&self, key: &str) -> (value: u32)
        ensures
            value == self@.number(key@, u32::MAX as int),
    {
        let value: String = self.attr_str(key);
        match text::parse_number(value.as_str(), 10, u32::MAX as u64) {
            Some(n) => n as u32,
            None => 0,
        }
    }
}

/// A text in which the five special characters are written as entities.
pub open spec fn escaped(s: Seq<char>) -> Seq<char>
    decreases s.len(),
{
    if s.len() == 0 {
        seq![]
    } else {
        let first = if s[0] == '&' {
            "&amp;"@
        } else if s[0] == '<' {
            "&lt;"@
        } else if s[0] == '>' {
            "&gt;"@
        } else if s[0] == '"' {
            "&quot;"@
        } else if s[0] == '\'' {
            "&apos;"@
        } else {
            seq![s[0]]
        };
        first + escaped(s.skip(1))
    }
}

/// A text that begins with an entity decodes to the text of the entity and to what follows.
proof fn lemma_entity_decodes(entity: Seq<char>, rest: Seq<char>)
    requires
        !entity.contains(';'),
    ensures
        decoded(seq!['&'] + entity + seq![';'] + rest) == entity_text(entity) + decoded(rest),
{
    let s = seq!['&'] + entity + seq![';'] + rest;
    let tail = s.skip(1);
    assert(tail =~= entity + seq![';'] + rest);
    lemma_entity_end(entity, rest);
    let n = entity.len() as int;
    assert(s.subrange(1, 1 + n) =~= entity);
    assert(s.skip(2 + n) =~= rest);
}

proof fn lemma_entity_end(entity: Seq<char>, rest: Seq<char>)
    requires
        !entity.contains(';'),
    ensures
        entity_length(entity + seq![';'] + rest) == entity.len(),
    decreases entity.len(),
{
    let s = entity + seq![';'] + rest;
    if entity.len() > 0 {
        assert(entity.contains(entity[0]));
        assert forall|c: char| entity.skip(1).contains(c) implies entity.contains(c) by {
            let i = choose|i: int| 0 <= i < entity.skip(1).len() && entity.skip(1)[i] == c;
            assert(entity[i + 1] == c);
        }
        lemma_entity_end(entity.skip(1), rest);
        assert(s.skip(1) =~= entity.skip(1) + seq![';'] + rest);
    }
}

/// Decoding gives back every text whose special characters were written as entities.
pub proof fn law_decoding_undoes_escaping(s: Seq<char>)
    ensures
        decoded(escaped(s)) == s,
    decreases s.len(),
{
    if s.len() > 0 {
        let rest = escaped(s.skip(1));
        law_decoding_undoes_escaping(s.skip(1));
        reveal_strlit("&amp;");
        reveal_strlit("&lt;");
        reveal_strlit("&gt;");
        reveal_strlit("&quot;");
        reveal_strlit("&apos;");
        reveal_strlit("amp");
        reveal_strlit("lt");
        reveal_strlit("gt");
        reveal_strlit("quot");
        reveal_strlit("apos");
        lemma_entity_decodes("amp"@, rest);
        lemma_entity_decodes("lt"@, rest);
        lemma_entity_decodes("gt"@, rest);
        lemma_entity_decodes("quot"@, rest);
        lemma_entity_decodes("apos"@, rest);
        assert("&amp;"@ =~= seq!['&'] + "amp"@ + seq![';']);
        assert("&lt;"@ =~= seq!['&'] + "lt"@ + seq![';']);
        assert("&gt;"@ =~= seq!['&'] + "gt"@ + seq![';']);
        assert("&quot;"@ =~= seq!['&'] + "quot"@ + seq![';']);
        assert("&apos;"@ =~= seq!['&'] + "apos"@ + seq![';']);
        assert("lt"@[0] != "gt"@[0]);
        let special = s[0] == '&' || s[0] == '<' || s[0] == '>' || s[0] == '"' || s[0] == '\'';
        if special {
            assert(decoded(escaped(s)) == seq![s[0]] + s.skip(1));
        } else {
            assert(escaped(s).skip(1) =~= rest);
        }
        assert(seq![s[0]] + s.skip(1) =~= s);
    }
}

/// A text without an ampersand decodes to itself.
pub proof fn law_plain_text_stays(s: Seq<char>)
    requires
        !s.contains('&'),
    ensures
        decoded(s) == s,
    decreases s.len(),
{
    if s.len() > 0 {
        assert(s.contains(s[0]));
        assert forall|c: char| s.skip(1).contains(c) implies s.contains(c) by {
            let i = choose|i: int| 0 <= i < s.skip(1).len() && s.skip(1)[i] == c;
            assert(s[i + 1] == c);
        }
        law_plain_text_stays(s.skip(1));
        assert(seq![s[0]] + s.skip(1) =~= s);
    }
}

/// A number that is read of an attribute is within its limit, and zero where there is no such
/// attribute.
pub proof fn law_numbers_have_bounds(tag: TagModel, key: Seq<char>, max: int)
    requires
        max >= 0,
    ensures
        0 <= tag.number(key, max) <= max,
        tag.attribute(key).len() == 0 ==> tag.number(key, max) == 0,
{
    text::law_number_is_not_negative(tag.attribute(key), max);
}

/// An attribute with a numeral gives the number, up to the limit, and zero beyond it.
pub proof fn law_numeral_gives_the_number(tag: TagModel, key: Seq<char>, max: int, n: nat)
    requires
        tag.attribute(key) == text::decimal(n),
        max >= 0,
    ensures
        n <= max ==> tag.number(key, max) == n,
        n > max ==> tag.number(key, max) == 0,
{
    text::lemma_numeral_value(n);
}

/// The value of an attribute is that of the first with its name: what its bytes hold as text, with
/// the entities replaced.
pub proof fn law_first_attribute_counts(tag: TagModel, key: Seq<char>, i: int)
    requires
        0 <= i < tag.attributes.len(),
        spells(tag.attributes[i].0, key),
        forall|j: int| 0 <= j < i ==> !spells((#[trigger] tag.attributes[j]).0, key),
    ensures
        tag.attribute(key) == decoded(text::text_of(tag.attributes[i].1)),
{
    lemma_first_attribute(tag.attributes, key, i);
}

proof fn lemma_first_attribute(attributes: Seq<(Seq<u8>, Seq<u8>)>, key: Seq<char>, i: int)
    requires
        0 <= i < attributes.len(),
        spells(attributes[i].0, key),
        forall|j: int| 0 <= j < i ==> !spells((#[trigger] attributes[j]).0, key),
    ensures
        raw_value(attributes, key) == Some(attributes[i].1),
    decreases attributes.len(),
{
    if i > 0 {
        let rest = attributes.skip(1);
        assert(!spells(attributes[0].0, key));
        assert forall|j: int| 0 <= j < i - 1 implies !spells((#[trigger] rest[j]).0, key) by {
            assert(rest[j] == attributes[j + 1]);
        }
        assert(rest[i - 1] == attributes[i]);
        lemma_first_attribute(rest, key, i - 1);
    }
}

/// An attribute that is missing counts as empty.
pub proof fn law_missing_attribute_is_empty(tag: TagModel, key: Seq<char>)
    requires
        forall|j: int| 0 <= j < tag.attributes.len() ==> !spells((#[trigger] tag.attributes[j]).0, key),
    ensures
        tag.attribute(key).len() == 0,
{
    lemma_missing_attribute(tag.attributes, key);
}

proof fn lemma_missing_attribute(attributes: Seq<(Seq<u8>, Seq<u8>)>, key: Seq<char>)
    requires
        forall|j: int| 0 <= j < attributes.len() ==> !spells((#[trigger] attributes[j]).0, key),
    ensures
        raw_value(attributes, key) is None,
    decreases attributes.len(),
{
    if attributes.len() > 0 {
        let rest = attributes.skip(1);
        assert(!spells(attributes[0].0, key));
        assert forall|j: int| 0 <= j < rest.len() implies !spells((#[trigger] rest[j]).0, key) by {
            assert(rest[j] == attributes[j + 1]);
        }
        lemma_missing_attribute(rest, key);
    }
}

/// The tags among what a reader comes upon are those of its first part and then those of its second,
/// wherever it is cut; a tag stays with its name and its well-formed attributes, and nothing else
/// is a tag.
pub proof fn law_tags_are_all_kept(
    first: Seq<XmlItem>,
    second: Seq<XmlItem>,
    name: Seq<u8>,
    attributes: Seq<Option<(Seq<u8>, Seq<u8>)>>,
)
    ensures
        tags_among(first + second) == tags_among(first) + tags_among(second),
        tags_among(seq![XmlItem::Tag { name, attributes }]) == seq![
            TagModel { name, attributes: well_formed(attributes) },
        ],
        tags_among(seq![XmlItem::Other]).len() == 0,
    decreases second.len(),
{
    assert(tags_among(Seq::<XmlItem>::empty()) =~= seq![]);
    assert(seq![XmlItem::Tag { name, attributes }].drop_last() =~= seq![]);
    assert(seq![XmlItem::Other].drop_last() =~= seq![]);
    if second.len() == 0 {
        assert(first + second =~= first);
        assert(tags_among(first) + tags_among(second) =~= tags_among(first));
    } else {
        let all = first + second;
        assert(all.drop_last() =~= first + second.drop_last());
        assert(all.last() == second.last());
        law_tags_are_all_kept(first, second.drop_last(), name, attributes);
        assert(tags_among(all) =~= tags_among(first) + tags_among(second));
    }
}

/// Of the attributes all are kept that are well formed, in their order, and no other.
pub proof fn law_well_formed_attributes_are_kept(
    first: Seq<Option<(Seq<u8>, Seq<u8>)>>,
    second: Seq<Option<(Seq<u8>, Seq<u8>)>>,
    pair: (Seq<u8>, Seq<u8>),
)
    ensures
        well_formed(first + second) == well_formed(first) + well_formed(second),
        well_formed(seq![Some(pair)]) == seq![pair],
        well_formed(seq![None]).len() == 0,
    decreases second.len(),
{
    assert(well_formed(Seq::<Option<(Seq<u8>, Seq<u8>)>>::empty()) =~= seq![]);
    assert(seq![Some(pair)].drop_last() =~= seq![]);
    assert(seq![None::<(Seq<u8>, Seq<u8>)>].drop_last() =~= seq![]);
    if second.len() == 0 {
        assert(first + second =~= first);
        assert(well_formed(first) + well_formed(second) =~= well_formed(first));
    } else {
        let all = first + second;
        assert(all.drop_last() =~= first + second.drop_last());
        assert(all.last() == second.last());
        law_well_formed_attributes_are_kept(first, second.drop_last(), pair);
        assert(well_formed(all) =~= well_formed(first) + well_formed(second));
    }
}

/// A numeric reference in decimal stands for the character with that number, whatever follows it; it
/// is dropped where there is no such character.
pub proof fn law_decimal_reference(n: nat, rest: Seq<char>)
    requires
        n <= u32::MAX,
    ensures
        ({
            let s = seq!['&', '#'] + text::decimal(n) + seq![';'] + rest;
            &&& n < 0xd800 || 0xe000 <= n <= 0x10ffff ==> decoded(s) == seq![n as char] + decoded(
                rest,
            )
            &&& 0xd800 <= n < 0xe000 || n > 0x10ffff ==> decoded(s) == decoded(rest)
        }),
{
    let s = seq!['&', '#'] + text::decimal(n) + seq![';'] + rest;
    let entity = seq!['#'] + text::decimal(n);
    text::law_numeral_has_no_leading_zero(n);
    text::law_numeral_is_read_back(n, u32::MAX as int);
    assert(!entity.contains(';'));
    lemma_entity_decodes(entity, rest);
    assert(s =~= seq!['&'] + entity + seq![';'] + rest);
    lemma_reference_is_no_name(entity);
    assert(entity.skip(1) =~= text::decimal(n));
    assert(text::decimal(n)[0] != 'x');
    assert(Seq::<char>::empty() + decoded(rest) =~= decoded(rest));
}

/// A reference in hexadecimal stands for the character with the number that its digits spell,
/// whatever follows it; it is dropped where they spell none or there is no such character.
pub proof fn law_hexadecimal_reference(digits: Seq<char>, rest: Seq<char>)
    requires
        !digits.contains(';'),
    ensures
        ({
            let s = seq!['&', '#', 'x'] + digits + seq![';'] + rest;
            match text::number_value(digits, 16, 0xffff_ffff) {
                Some(n) if n < 0xd800 || 0xe000 <= n <= 0x10ffff => decoded(s) == seq![n as char]
                    + decoded(rest),
                _ => decoded(s) == decoded(rest),
            }
        }),
{
    let s = seq!['&', '#', 'x'] + digits + seq![';'] + rest;
    let entity = seq!['#', 'x'] + digits;
    assert forall|i: int| 0 <= i < entity.len() implies entity[i] != ';' by {
        if i >= 2 {
            assert(digits.contains(digits[i - 2]));
        }
    }
    assert(!entity.contains(';'));
    lemma_entity_decodes(entity, rest);
    assert(s =~= seq!['&'] + entity + seq![';'] + rest);
    lemma_reference_is_no_name(entity);
    assert(entity.skip(1).skip(1) =~= digits);
    assert(Seq::<char>::empty() + decoded(rest) =~= decoded(rest));
    text::law_hexadecimal_number_is_not_negative(digits, 0xffff_ffff);
}

proof fn lemma_reference_is_no_name(entity: Seq<char>)
    requires
        entity.len() > 0,
        entity[0] == '#',
    ensures
        entity != "amp"@,
        entity != "lt"@,
        entity != "gt"@,
        entity != "quot"@,
        entity != "apos"@,
{
    reveal_strlit("amp");
    reveal_strlit("lt");
    reveal_strlit("gt");
    reveal_strlit("quot");
    reveal_strlit("apos");
}

/// What stands between an ampersand and a semicolon and is neither one of the five names nor a
/// numeric reference stays as it is.
pub proof fn law_unknown_entity_stays(entity: Seq<char>, rest: Seq<char>)
    requires
        !entity.contains(';'),
        entity.len() == 0 || entity[0] != '#',
        entity != "amp"@,
        entity != "lt"@,
        entity != "gt"@,
        entity != "quot"@,
        entity != "apos"@,
    ensures
        decoded(seq!['&'] + entity + seq![';'] + rest) == seq!['&'] + entity + seq![';'] + decoded(
            rest,
        ),
{
    lemma_entity_decodes(entity, rest);
}

/// A text before the first ampersand stays as it is, and what follows it is decoded by itself.
pub proof fn law_text_before_an_entity_stays(plain: Seq<char>, rest: Seq<char>)
    requires
        !plain.contains('&'),
    ensures
        decoded(plain + rest) == plain + decoded(rest),
    decreases plain.len(),
{
    if plain.len() == 0 {
        assert(plain + rest =~= rest);
        assert(plain + decoded(rest) =~= decoded(rest));
    } else {
        assert(plain.contains(plain[0]));
        assert forall|c: char| plain.skip(1).contains(c) implies plain.contains(c) by {
            let i = choose|i: int| 0 <= i < plain.skip(1).len() && plain.skip(1)[i] == c;
            assert(plain[i + 1] == c);
        }
        law_text_before_an_entity_stays(plain.skip(1), rest);
        assert((plain + rest).skip(1) =~= plain.skip(1) + rest);
        assert(seq![plain[0]] + (plain.skip(1) + decoded(rest)) =~= plain + decoded(rest));
    }
}

/// A name is spelled by its own letters only: no two byte strings spell one name, and one byte
/// string spells no two names.
pub proof fn law_names_are_told_apart(bytes: Seq<u8>, other: Seq<u8>, name: Seq<char>, wrong: Seq<char>)
    requires
        spells(bytes, name),
    ensures
        spells(other, name) ==> other == bytes,
        spells(bytes, wrong) ==> wrong == name,
        bytes.len() == name.len(),
        forall|i: int| 0 <= i < name.len() ==> bytes[i] as int == #[trigger] name[i] as int,
{
    assert forall|i: int| 0 <= i < name.len() implies bytes[i] as int == #[trigger] name[i] as int by {
        assert(bytes[i] as char == name[i]);
    }
    if spells(other, name) {
        assert forall|i: int| 0 <= i < bytes.len() implies #[trigger] other[i] == bytes[i] by {
            assert(bytes[i] as char == name[i]);
            assert(other[i] as char == name[i]);
            assert(other[i] as int == name[i] as int);
        }
        assert(other =~= bytes);
    }
    if spells(bytes, wrong) {
        assert forall|i: int| 0 <= i < name.len() implies #[trigger] wrong[i] == name[i] by {
            assert(bytes[i] as char == name[i]);
            assert(bytes[i] as char == wrong[i]);
        }
        assert(wrong =~= name);
    }
}

/// The model of a tag says all that the tag says, and the tags of a document are those that its
/// reader comes upon.
pub proof fn law_tag_model_says_everything(tag: Tag, i: int, tags: Seq<Tag>, text: Seq<char>)
    ensures
        tag@.name == tag.name@,
        tag@.attributes.len() == tag.attributes@.len(),
        0 <= i < tag.attributes@.len() ==> tag@.attributes[i] == (
            tag.attributes@[i].0@,
            tag.attributes@[i].1@,
        ),
        tag_models(tags).len() == tags.len(),
        0 <= i < tags.len() ==> tag_models(tags)[i] == tags[i]@,
        document_tags(text) == tags_among(xml_items(text)),
{
}

/// An entity that goes to the end of the text is the same as one that ends with a semicolon there.
pub proof fn law_last_entity_needs_no_semicolon(entity: Seq<char>)
    requires
        !entity.contains(';'),
    ensures
        decoded(seq!['&'] + entity) == decoded(seq!['&'] + entity + seq![';']),
{
    let s = seq!['&'] + entity;
    assert(s.skip(1) =~= entity);
    lemma_entity_is_all(entity);
    assert(s.subrange(1, 1 + entity.len() as int) =~= entity);
    assert(s.skip(s.len() as int) =~= seq![]);
    lemma_entity_decodes(entity, seq![]);
    assert(seq!['&'] + entity + seq![';'] + seq![] =~= seq!['&'] + entity + seq![';']);
}

proof fn lemma_entity_is_all(entity: Seq<char>)
    requires
        !entity.contains(';'),
    ensures
        entity_length(entity) == entity.len(),
    decreases entity.len(),
{
    if entity.len() > 0 {
        assert(entity.contains(entity[0]));
        assert forall|c: char| entity.skip(1).contains(c) implies entity.contains(c) by {
            let i = choose|i: int| 0 <= i < entity.skip(1).len() && entity.skip(1)[i] == c;
            assert(entity[i + 1] == c);
        }
        lemma_entity_is_all(entity.skip(1));
    }
}

} // verus!
