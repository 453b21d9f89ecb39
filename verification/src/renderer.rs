//! Titles and pixels of a rendered frame.
use vstd::arithmetic::div_mod;
use vstd::arithmetic::mul;
use vstd::prelude::*;

use crate::text;
use crate::text::CharClass;

verus! {

// ---------------------------------------------------------------------------
// Titles
// ---------------------------------------------------------------------------

/// A word with its first letter in upper case.
pub open spec fn capitalized(word: Seq<char>) -> Seq<char> {
    if word.len() == 0 {
        word
    } else {
        text::uppercase(word[0]) + word.skip(1)
    }
}

/// The title as it is shown: its words capitalized, with single spaces between
/// them.
pub open spec fn display_title(title: Seq<char>) -> Seq<char> {
    text::spaced(
        text::pieces(title, CharClass::Whitespace).map_values(|word: Seq<char>| capitalized(word)),
    )
}

/// The title whose words start with the given texts in place of their first
/// letters, with single spaces between them.
pub open spec fn raised_title(title: Seq<char>, raised: Seq<Seq<char>>) -> Seq<char> {
    let words = text::pieces(title, CharClass::Whitespace);
    text::spaced(Seq::new(words.len(), |i: int| raised[i] + words[i].skip(1)))
}

/// The first letters of the words of a title.
pub open spec fn first_letters(title: Seq<char>) -> Seq<char> {
    text::pieces(title, CharClass::Whitespace).map_values(|word: Seq<char>| word[0])
}

/// The texts that a list of strings stands for.
pub open spec fn string_views(list: Seq<String>) -> Seq<Seq<char>> {
    list.map_values(|text: String| text@)
}

/// The first letters of the words of a title.
pub fn word_starts(title: &str) -> (r: Vec<char>)
    ensures
        r@ == first_letters(title@),
{
    let words = text::split_pieces(&text::characters(title), CharClass::Whitespace);
    let ghost found = text::pieces(title@, CharClass::Whitespace);
    proof {
        text::lemma_pieces_are_words(title@);
    }
    let mut starts: Vec<char> = Vec::new();
    for i in 0..words.len()
        invariant
            text::all_views(words@) == found,
            found == text::pieces(title@, CharClass::Whitespace),
            forall|k: int| 0 <= k < found.len() ==> text::word(#[trigger] found[k]),
            starts@ == first_letters(title@).take(i as int),
    {
        proof {
            assert(text::word(found[i as int]));
            assert(found[i as int] == words@[i as int]@);
        }
        starts.push(words[i][0]);
        proof {
            assert(starts@ =~= first_letters(title@).take(i + 1));
        }
    }
    proof {
        assert(text::all_views(words@).len() == words@.len());
        assert(first_letters(title@).take(words@.len() as int) =~= first_letters(title@));
    }
    starts
}

/// The title whose words start with the given texts in place of their first
/// letters.
pub fn title_from_raised(title: &str, raised: &Vec<String>) -> (r: String)
    requires
        raised@.len() == text::pieces(title@, CharClass::Whitespace).len(),
    ensures
        r@ == raised_title(title@, string_views(raised@)),
{
    let words = text::split_pieces(&text::characters(title), CharClass::Whitespace);
    let ghost found = text::pieces(title@, CharClass::Whitespace);
    let ghost starts = string_views(raised@);
    let ghost wanted = Seq::new(found.len(), |i: int| starts[i] + found[i].skip(1));
    proof {
        text::lemma_pieces_are_words(title@);
    }
    let mut shown: Vec<Vec<char>> = Vec::new();
    for i in 0..words.len()
        invariant
            text::all_views(words@) == found,
            forall|k: int| 0 <= k < found.len() ==> text::word(#[trigger] found[k]),
            starts == string_views(raised@),
            raised@.len() == found.len(),
            wanted == Seq::new(found.len(), |i: int| starts[i] + found[i].skip(1)),
            text::all_views(shown@) == wanted.take(i as int),
    {
        proof {
            assert(text::word(found[i as int]));
            assert(found[i as int] == words@[i as int]@);
        }
        let mut word = text::characters(raised[i].as_str());
        let mut rest = text::slice_of(&words[i], 1, words[i].len());
        word.append(&mut rest);
        proof {
            assert(words@[i as int]@.subrange(1, words@[i as int]@.len() as int)
                =~= found[i as int].skip(1));
            assert(word@ =~= wanted[i as int]);
            assert(wanted.take(i + 1) =~= wanted.take(i as int).push(word@));
        }
        let ghost before = shown@;
        shown.push(word);
        proof {
            assert(text::all_views(shown@) =~= text::all_views(before).push(word@));
        }
    }
    proof {
        assert(text::all_views(words@).len() == words@.len());
        assert(wanted.take(words@.len() as int) =~= wanted);
    }
    text::from_characters(&text::join_spaced(&shown))
}

/// The title as it is shown above a frame's lower edge.
pub fn title_case(title: &str) -> (r: String)
    ensures
        r@ == display_title(title@),
{
    let starts = word_starts(title);
    let ghost letters = first_letters(title@);
    let mut raised: Vec<String> = Vec::new();
    for i in 0..starts.len()
        invariant
            starts@ == letters,
            string_views(raised@) == letters.take(i as int).map_values(
                |c: char| text::uppercase(c),
            ),
    {
        let ghost before = raised@;
        let letter = text::to_uppercase(starts[i]);
        raised.push(letter);
        proof {
            assert(string_views(raised@) =~= string_views(before).push(letter@));
            assert(letters.take(i + 1).map_values(|c: char| text::uppercase(c)) =~= letters.take(
                i as int,
            ).map_values(|c: char| text::uppercase(c)).push(letter@));
        }
    }
    proof {
        let found = text::pieces(title@, CharClass::Whitespace);
        let views = string_views(raised@);
        assert(letters.take(starts@.len() as int) =~= letters);
        assert(views.len() == raised@.len());
        text::lemma_pieces_are_words(title@);
        assert forall|i: int| 0 <= i < found.len() implies views[i] + found[i].skip(1)
            == capitalized(found[i]) by {
            assert(text::word(found[i]));
        }
        assert(Seq::new(found.len(), |i: int| views[i] + found[i].skip(1)) =~= found.map_values(
            |word: Seq<char>| capitalized(word),
        ));
    }
    title_from_raised(title, &raised)
}

// ---------------------------------------------------------------------------
// Bars
// ---------------------------------------------------------------------------

/// How much of its slot the outline of a bar takes, in percent.
pub const BAR_SHELL_OCCUPANCY: u32 = 98;

/// How much of its slot the inside of a bar takes, in percent.
pub const BAR_FILL_OCCUPANCY: u32 = 90;

// ---------------------------------------------------------------------------
// Pixels
// ---------------------------------------------------------------------------

/// The number of bytes that hold a pixel.
pub const PIXEL_BYTES: usize = 4;

/// A pixmap of `tiny_skia`.
#[verifier::external_type_specification]
#[verifier::external_body]
pub struct ExPixmap(tiny_skia::Pixmap);

/// The bytes of a pixmap: its pixels row by row, four bytes each.
pub uninterp spec fn pixels(pixmap: tiny_skia::Pixmap) -> Seq<u8>;

/// The width and the height of a pixmap.
pub uninterp spec fn dimensions(pixmap: tiny_skia::Pixmap) -> (u32, u32);

/// How many bytes the pixels of an image take.
pub open spec fn image_bytes(width: int, height: int) -> int {
    width * height * 4
}

/// Calls `tiny_skia::Pixmap::new`. It makes a pixmap of the given width and
/// height whose bytes are all zero. It makes none where one of them is zero or a
/// row takes more bytes than an `i32` counts.
#[verifier::external_body]
fn new_pixmap(width: u32, height: u32) -> (r: Option<tiny_skia::Pixmap>)
    requires
        image_bytes(width as int, height as int) <= isize::MAX,
    ensures
        match r {
            Some(pixmap) => {
                &&& width > 0 && height > 0 && 4 * width <= i32::MAX
                &&& dimensions(pixmap) == (width, height)
                &&& pixels(pixmap) == Seq::new(
                    image_bytes(width as int, height as int) as nat,
                    |i: int| 0u8,
                )
            },
            None => width == 0 || height == 0 || 4 * width > i32::MAX,
        },
{
    tiny_skia::Pixmap::new(width, height)
}

/// Calls `tiny_skia::Pixmap::data`, which gives the bytes of a pixmap.
#[verifier::external_body]
fn pixel_data(pixmap: &tiny_skia::Pixmap) -> (r: &[u8])
    ensures
        r@ == pixels(*pixmap),
{
    pixmap.data()
}

/// Calls `tiny_skia::Pixmap::data_mut` and copies bytes to what it gives: they
/// become the bytes of the pixmap, whose size stays the same.
#[verifier::external_body]
fn store_pixels(pixmap: &mut tiny_skia::Pixmap, bytes: &[u8])
    requires
        bytes@.len() == pixels(*old(pixmap)).len(),
    ensures
        pixels(*final(pixmap)) == bytes@,
        dimensions(*final(pixmap)) == dimensions(*old(pixmap)),
{
    pixmap.data_mut().copy_from_slice(bytes);
}

/// Calls `tiny_skia::Pixmap::clone`, which gives a pixmap of the same size with
/// the same bytes.
#[verifier::external_body]
fn copy_of(pixmap: &tiny_skia::Pixmap) -> (r: tiny_skia::Pixmap)
    ensures
        pixels(r) == pixels(*pixmap),
        dimensions(r) == dimensions(*pixmap),
{
    pixmap.clone()
}

/// The place of a pixel among the bytes of an image.
pub open spec fn pixel_place(width: int, x: int, y: int) -> int {
    (y * width + x) * 4
}

/// Whether the bytes of a pixel are those of the color that `shade` gives for
/// it, which nothing shines through.
pub open spec fn shaded<S: Fn(u32, u32) -> (u8, u8, u8)>(
    shade: S,
    bytes: Seq<u8>,
    width: int,
    x: int,
    y: int,
) -> bool {
    let place = pixel_place(width, x, y);
    &&& call_ensures(
        shade,
        (x as u32, y as u32),
        (bytes[place], bytes[place + 1], bytes[place + 2]),
    )
    &&& bytes[place + 3] == 255
}

/// Whether all pixels of an image are shaded.
pub open spec fn all_shaded<S: Fn(u32, u32) -> (u8, u8, u8)>(
    shade: S,
    bytes: Seq<u8>,
    width: int,
    height: int,
) -> bool {
    forall|x: int, y: int|
        0 <= x < width && 0 <= y < height ==> #[trigger] shaded(shade, bytes, width, x, y)
}

/// A pixel before another has its bytes before those of the other.
proof fn lemma_pixel_places(width: int, x: int, y: int, at_x: int, at_y: int)
    requires
        0 <= x < width,
        0 <= at_x <= width,
        0 <= y < at_y || (y == at_y && x < at_x),
        0 <= at_y,
    ensures
        0 <= pixel_place(width, x, y),
        pixel_place(width, x, y) + 4 <= pixel_place(width, at_x, at_y),
{
    assert(0 <= y * width) by (nonlinear_arith)
        requires
            0 <= y,
            0 <= width,
    ;
    if y < at_y {
        assert(y * width + width <= at_y * width) by (nonlinear_arith)
            requires
                y + 1 <= at_y,
                0 <= width,
        ;
    }
}

/// The bytes of an image whose pixels `shade` colors.
fn paint<S: Fn(u32, u32) -> (u8, u8, u8)>(width: u32, height: u32, shade: S) -> (r: Vec<u8>)
    requires
        forall|x: u32, y: u32|
            x < width && y < height ==> #[trigger] call_requires(shade, (x, y)),
    ensures
        r@.len() == image_bytes(width as int, height as int),
        all_shaded(shade, r@, width as int, height as int),
{
    let mut bytes: Vec<u8> = Vec::new();
    let ghost w = width as int;
    proof {
        assert(pixel_place(w, 0, 0) == 0) by (nonlinear_arith);
    }
    for y in 0..height
        invariant
            w == width,
            forall|x: u32, y: u32|
                x < width && y < height ==> #[trigger] call_requires(shade, (x, y)),
            bytes@.len() == pixel_place(w, 0, y as int),
            all_shaded(shade, bytes@, w, y as int),
    {
        for x in 0..width
            invariant
                w == width,
                y < height,
                forall|x: u32, y: u32|
                    x < width && y < height ==> #[trigger] call_requires(shade, (x, y)),
                bytes@.len() == pixel_place(w, x as int, y as int),
                all_shaded(shade, bytes@, w, y as int),
                forall|k: int| 0 <= k < x ==> #[trigger] shaded(shade, bytes@, w, k, y as int),
        {
            let ghost before = bytes@;
            let (red, green, blue) = shade(x, y);
            bytes.push(red);
            bytes.push(green);
            bytes.push(blue);
            bytes.push(255);
            proof {
                assert(forall|i: int| 0 <= i < before.len() ==> bytes@[i] == before[i]);
                assert forall|a: int, b: int|
                    0 <= a < w && 0 <= b < y implies #[trigger] shaded(shade, bytes@, w, a, b) by {
                    assert(shaded(shade, before, w, a, b));
                    lemma_pixel_places(w, a, b, x as int, y as int);
                }
                assert forall|k: int| 0 <= k < x + 1 implies #[trigger] shaded(
                    shade,
                    bytes@,
                    w,
                    k,
                    y as int,
                ) by {
                    if k < x {
                        assert(shaded(shade, before, w, k, y as int));
                        lemma_pixel_places(w, k, y as int, x as int, y as int);
                    }
                }
            }
        }
        proof {
            assert(pixel_place(w, w, y as int) == pixel_place(w, 0, y + 1)) by (nonlinear_arith);
        }
    }
    proof {
        assert(pixel_place(w, 0, height as int) == image_bytes(w, height as int))
            by (nonlinear_arith);
    }
    bytes
}

/// The background of the given size, each pixel in the color that `shade` gives
/// for it. There is none of a size that a pixmap cannot have.
pub fn create_background<S: Fn(u32, u32) -> (u8, u8, u8)>(width: u32, height: u32, shade: S) -> (r:
    Option<tiny_skia::Pixmap>)
    requires
        forall|x: u32, y: u32|
            x < width && y < height ==> #[trigger] call_requires(shade, (x, y)),
        image_bytes(width as int, height as int) <= isize::MAX,
    ensures
        match r {
            Some(pixmap) => {
                &&& width > 0 && height > 0 && 4 * width <= i32::MAX
                &&& dimensions(pixmap) == (width, height)
                &&& pixels(pixmap).len() == image_bytes(width as int, height as int)
                &&& all_shaded(shade, pixels(pixmap), width as int, height as int)
            },
            None => width == 0 || height == 0 || 4 * width > i32::MAX,
        },
{
    match new_pixmap(width, height) {
        Some(pixmap) => {
            let mut pixmap = pixmap;
            let bytes = paint(width, height, shade);
            store_pixels(&mut pixmap, bytes.as_slice());
            Some(pixmap)
        },
        None => None,
    }
}

/// What frames are drawn on.
pub struct Canvas {
    /// What every frame starts from.
    pub background: tiny_skia::Pixmap,
    /// The frame.
    pub frame: tiny_skia::Pixmap,
}

impl Canvas {
    /// Whether the frame has the size of the background.
    pub open spec fn sound(self) -> bool {
        same_size(self.frame, self.background)
    }

    /// Whether the frame shows the background and nothing else.
    pub open spec fn cleared(self) -> bool {
        shows(self.frame, self.background)
    }

    /// A canvas with a background and a frame that shows nothing else.
    pub fn new(background: tiny_skia::Pixmap) -> (r: Canvas)
        ensures
            r.sound(),
            r.cleared(),
            r.background == background,
    {
        let frame = copy_of(&background);
        Canvas { background, frame }
    }

    /// Starts a frame: only the background is left of it.
    pub fn clear(&mut self)
        requires
            old(self).sound(),
        ensures
            final(self).sound(),
            final(self).cleared(),
            final(self).background == old(self).background,
    {
        store_pixels(&mut self.frame, pixel_data(&self.background));
    }

    /// Makes a frame: only the background is left of the last one, and `draw` draws
    /// on that.
    pub fn draw<D: Fn(&mut tiny_skia::Pixmap)>(&mut self, draw: D)
        requires
            old(self).sound(),
            forall|page: &mut tiny_skia::Pixmap|
                shows(*page, old(self).background) ==> #[trigger] call_requires(draw, (page,)),
            forall|page: &mut tiny_skia::Pixmap| #[trigger]
                call_ensures(draw, (page,), ()) ==> same_size(*final(page), *page),
        ensures
            final(self).sound(),
            final(self).background == old(self).background,
            exists|page: &mut tiny_skia::Pixmap|
                {
                    &&& shows(*page, old(self).background)
                    &&& #[trigger] call_ensures(draw, (page,), ())
                    &&& final(self).frame == *final(page)
                },
    {
        self.clear();
        let page = &mut self.frame;
        draw(page);
    }
}

/// Whether two pixmaps have the same size.
pub open spec fn same_size(a: tiny_skia::Pixmap, b: tiny_skia::Pixmap) -> bool {
    dimensions(a) == dimensions(b) && pixels(a).len() == pixels(b).len()
}

/// Whether two pixmaps show the same.
pub open spec fn shows(a: tiny_skia::Pixmap, b: tiny_skia::Pixmap) -> bool {
    dimensions(a) == dimensions(b) && pixels(a) == pixels(b)
}

/// Earlier frames leave no trace: where what `draw` makes of a page depends on what
/// the page shows, and keeps its size, the same drawing on the same background gives
/// the same frame, whatever was drawn before on either canvas. A frame has four bytes
/// for each pixel.
pub proof fn law_earlier_frames_leave_no_trace<D: Fn(&mut tiny_skia::Pixmap)>(
    draw: D,
    background: tiny_skia::Pixmap,
    frame: tiny_skia::Pixmap,
    other_background: tiny_skia::Pixmap,
    other_frame: tiny_skia::Pixmap,
    width: u32,
    height: u32,
)
    requires
        dimensions(background) == (width, height),
        pixels(background).len() == image_bytes(width as int, height as int),
        forall|page: &mut tiny_skia::Pixmap| #[trigger]
            call_ensures(draw, (page,), ()) ==> same_size(*final(page), *page),
        forall|a: &mut tiny_skia::Pixmap, b: &mut tiny_skia::Pixmap|
            {
                &&& shows(*a, *b)
                &&& #[trigger] call_ensures(draw, (a,), ())
                &&& #[trigger] call_ensures(draw, (b,), ())
            } ==> shows(*final(a), *final(b)),
        shows(background, other_background),
        exists|page: &mut tiny_skia::Pixmap|
            {
                &&& shows(*page, background)
                &&& #[trigger] call_ensures(draw, (page,), ())
                &&& frame == *final(page)
            },
        exists|page: &mut tiny_skia::Pixmap|
            {
                &&& shows(*page, other_background)
                &&& #[trigger] call_ensures(draw, (page,), ())
                &&& other_frame == *final(page)
            },
    ensures
        shows(frame, other_frame),
        dimensions(frame) == (width, height),
        pixels(frame).len() == 4 * width * height,
{
    assert(width * height * 4 == 4 * width * height) by (nonlinear_arith);
}

/// A cleared canvas shows what any other with the same background shows,
/// whatever was drawn on it before; a frame has four bytes for each pixel.
pub proof fn law_cleared_canvases_are_equal(a: Canvas, b: Canvas, width: u32, height: u32)
    requires
        a.cleared(),
        b.cleared(),
        dimensions(a.background) == (width, height),
        dimensions(b.background) == (width, height),
        pixels(a.background) == pixels(b.background),
        pixels(a.background).len() == image_bytes(width as int, height as int),
    ensures
        dimensions(a.frame) == dimensions(b.frame),
        pixels(a.frame) == pixels(b.frame),
        pixels(a.frame).len() == 4 * width * height,
{
    assert(width * height * 4 == 4 * width * height) by (nonlinear_arith);
}

/// The place of a pixel of a glyph among the bytes of an image, where it lies in
/// the image. The glyph's pixels are counted from its upper left one.
pub open spec fn glyph_place(
    left: int,
    top: int,
    x: int,
    y: int,
    width: int,
    height: int,
) -> Option<int> {
    if 0 <= left + x < width && 0 <= top + y < height {
        Some(pixel_place(width, left + x, top + y))
    } else {
        None
    }
}

/// The place of a pixel of a glyph among the bytes of an image of the given
/// width and height, where it lies in the image.
pub fn glyph_pixel(left: i32, top: i32, x: u32, y: u32, width: u32, height: u32) -> (r: Option<
    usize,
>)
    requires
        image_bytes(width as int, height as int) <= isize::MAX,
    ensures
        match r {
            Some(place) => glyph_place(
                left as int,
                top as int,
                x as int,
                y as int,
                width as int,
                height as int,
            ) == Some(place as int) && place + 4 <= image_bytes(width as int, height as int),
            None => glyph_place(
                left as int,
                top as int,
                x as int,
                y as int,
                width as int,
                height as int,
            ) is None,
        },
{
    let at_x: i64 = left as i64 + x as i64;
    let at_y: i64 = top as i64 + y as i64;
    if at_x < 0 || at_y < 0 || at_x >= width as i64 || at_y >= height as i64 {
        return None;
    }
    proof {
        let (w, h) = (width as int, height as int);
        lemma_pixel_places(w, at_x as int, at_y as int, 0, h);
        assert(pixel_place(w, 0, h) == image_bytes(w, h)) by (nonlinear_arith);
        lemma_pixel_places(w, 0, at_y as int, 0, h);
        assert(0 <= at_y * w) by (nonlinear_arith)
            requires
                0 <= at_y,
                0 <= w,
        ;
    }
    Some((at_y as usize * width as usize + at_x as usize) * PIXEL_BYTES)
}

/// The number that the noise of a pixel is taken from: a hash of its place.
pub open spec fn pixel_hash(x: u32, y: u32) -> u32 {
    let mixed = x.wrapping_mul(0x9e37_79b9) ^ y.wrapping_mul(0x85eb_ca6b) ^ 42;
    let folded = (mixed ^ (mixed >> 16)).wrapping_mul(0x7feb_352d);
    folded ^ (folded >> 15)
}

/// The number that the noise of a pixel is taken from: a hash of its place.
pub fn pixel_noise(x: u32, y: u32) -> (r: u32)
    ensures
        r == pixel_hash(x, y),
{
    let mixed: u32 = x.wrapping_mul(0x9e37_79b9) ^ y.wrapping_mul(0x85eb_ca6b) ^ 42;
    let folded: u32 = (mixed ^ (mixed >> 16)).wrapping_mul(0x7feb_352d);
    folded ^ (folded >> 15)
}

// ---------------------------------------------------------------------------
// Laws
// ---------------------------------------------------------------------------

/// The words of two texts with white space between are those of both.
proof fn lemma_words_between(a: Seq<char>, c: char, b: Seq<char>)
    requires
        text::whitespace(c),
    ensures
        text::pieces(a.push(c) + b, CharClass::Whitespace) == text::pieces(
            a,
            CharClass::Whitespace,
        ) + text::pieces(b, CharClass::Whitespace),
        text::has_words(a) <==> text::pieces(a, CharClass::Whitespace).len() > 0,
        text::has_words(b) <==> text::pieces(b, CharClass::Whitespace).len() > 0,
{
    text::lemma_pieces_add(a.push(c), b, CharClass::Whitespace);
    assert(a.push(c).drop_last() =~= a);
    text::lemma_has_words(a);
    text::lemma_has_words(b);
}

/// A word is shown with its first letter in upper case and the rest as it is. What
/// stands on either side of white space is shown by itself, with one space between;
/// white space around all words is not shown.
pub proof fn law_words_are_capitalized(
    c: char,
    a: &str,
    b: &str,
    whole: &str,
    ra: String,
    rb: String,
    r: String,
)
    requires
        text::whitespace(c),
        whole@ == a@.push(c) + b@,
        call_ensures(title_case, (a,), ra),
        call_ensures(title_case, (b,), rb),
        call_ensures(title_case, (whole,), r),
    ensures
        text::word(a@) ==> ra@ == text::uppercase(a@[0]) + a@.skip(1),
        text::has_words(a@) && text::has_words(b@) ==> r@ == ra@.push(' ') + rb@,
        !text::has_words(a@) ==> ra@.len() == 0 && r@ == rb@,
        !text::has_words(b@) ==> r@ == ra@,
{
    let shown = |word: Seq<char>| capitalized(word);
    let x = text::pieces(a@, CharClass::Whitespace);
    let y = text::pieces(b@, CharClass::Whitespace);
    lemma_words_between(a@, c, b@);
    assert((x + y).map_values(shown) =~= x.map_values(shown) + y.map_values(shown));
    if text::word(a@) {
        text::lemma_one_piece(a@, CharClass::Whitespace);
        assert(x.map_values(shown) =~= seq![capitalized(a@)]);
    }
    if text::has_words(a@) && text::has_words(b@) {
        text::lemma_spaced_add(x.map_values(shown), y.map_values(shown));
    }
    if !text::has_words(a@) {
        assert(x.map_values(shown) =~= Seq::empty());
        assert(x + y =~= y);
    }
    if !text::has_words(b@) {
        assert(x + y =~= x);
    }
}

/// The first letters are those of the words, in order.
pub proof fn law_first_letters_are_those_of_the_words(
    c: char,
    a: &str,
    b: &str,
    whole: &str,
    ra: Vec<char>,
    rb: Vec<char>,
    r: Vec<char>,
)
    requires
        text::whitespace(c),
        whole@ == a@.push(c) + b@,
        call_ensures(word_starts, (a,), ra),
        call_ensures(word_starts, (b,), rb),
        call_ensures(word_starts, (whole,), r),
    ensures
        text::word(a@) ==> ra@ == seq![a@[0]],
        !text::has_words(a@) ==> ra@.len() == 0,
        r@ == ra@ + rb@,
{
    lemma_words_between(a@, c, b@);
    if text::word(a@) {
        text::lemma_one_piece(a@, CharClass::Whitespace);
        assert(ra@ =~= seq![a@[0]]);
    }
    assert(r@ =~= ra@ + rb@);
}

/// Each word starts with the text that stands for its first letter, the rest of it is
/// kept, and there is one space between two words.
pub proof fn law_raised_letters_start_the_words(
    c: char,
    a: &str,
    b: &str,
    whole: &str,
    x: &Vec<String>,
    y: &Vec<String>,
    both: &Vec<String>,
    ra: String,
    rb: String,
    r: String,
)
    requires
        text::whitespace(c),
        whole@ == a@.push(c) + b@,
        both@ == x@ + y@,
        x@.len() == text::pieces(a@, CharClass::Whitespace).len(),
        y@.len() == text::pieces(b@, CharClass::Whitespace).len(),
        call_ensures(title_from_raised, (a, x), ra),
        call_ensures(title_from_raised, (b, y), rb),
        call_ensures(title_from_raised, (whole, both), r),
    ensures
        text::word(a@) ==> x@.len() == 1 && ra@ == x@[0]@ + a@.skip(1),
        text::has_words(a@) && text::has_words(b@) ==> r@ == ra@.push(' ') + rb@,
        !text::has_words(a@) ==> ra@.len() == 0 && r@ == rb@,
        !text::has_words(b@) ==> r@ == ra@,
{
    let u = text::pieces(a@, CharClass::Whitespace);
    let v = text::pieces(b@, CharClass::Whitespace);
    let (i, j) = (string_views(x@), string_views(y@));
    let k = string_views(both@);
    lemma_words_between(a@, c, b@);
    let p = Seq::new(u.len(), |n: int| i[n] + u[n].skip(1));
    let q = Seq::new(v.len(), |n: int| j[n] + v[n].skip(1));
    let all = Seq::new((u + v).len(), |n: int| k[n] + (u + v)[n].skip(1));
    assert(all =~= p + q);
    if text::word(a@) {
        text::lemma_one_piece(a@, CharClass::Whitespace);
        assert(p =~= seq![x@[0]@ + a@.skip(1)]);
    }
    if text::has_words(a@) && text::has_words(b@) {
        text::lemma_spaced_add(p, q);
    }
    if !text::has_words(a@) {
        assert(p =~= Seq::empty());
        assert(all =~= q);
    }
    if !text::has_words(b@) {
        assert(all =~= p);
    }
}

/// A background has four bytes for each pixel, row by row: the color that is given for
/// the pixel, and that nothing shines through it.
pub proof fn law_background_has_the_given_colors<S: Fn(u32, u32) -> (u8, u8, u8)>(
    width: u32,
    height: u32,
    shade: S,
    pixmap: tiny_skia::Pixmap,
    x: u32,
    y: u32,
    place: int,
)
    requires
        call_ensures(create_background::<S>, (width, height, shade), Some(pixmap)),
        x < width,
        y < height,
        place == 4 * (width * y + x),
    ensures
        dimensions(pixmap) == (width, height),
        pixels(pixmap).len() == 4 * width * height,
        call_ensures(
            shade,
            (x, y),
            (pixels(pixmap)[place], pixels(pixmap)[place + 1], pixels(pixmap)[place + 2]),
        ),
        pixels(pixmap)[place + 3] == 255,
{
    assert(width * height * 4 == 4 * width * height) by (nonlinear_arith);
    assert(pixel_place(width as int, x as int, y as int) == place) by {
        assert(y * width == width * y) by (nonlinear_arith);
    }
    assert(shaded(shade, pixels(pixmap), width as int, x as int, y as int));
}

/// A new canvas shows its background.
pub proof fn law_new_canvas_shows_its_background(background: tiny_skia::Pixmap, canvas: Canvas)
    requires
        call_ensures(Canvas::new, (background,), canvas),
    ensures
        canvas.background == background,
        pixels(canvas.frame) == pixels(background),
        dimensions(canvas.frame) == dimensions(background),
{
}

/// Clearing leaves the background, and nothing else, on the frame.
pub proof fn law_cleared_canvas_shows_its_background(canvas: &mut Canvas, r: ())
    requires
        call_ensures(Canvas::clear, (canvas,), r),
    ensures
        final(canvas).background == old(canvas).background,
        pixels(final(canvas).frame) == pixels(old(canvas).background),
        dimensions(final(canvas).frame) == dimensions(old(canvas).background),
{
}

/// A pixel of a glyph has a place exactly where it lies in the image, and then the place
/// is that of the pixel as far to the right of the corner and below it as in the glyph.
pub proof fn law_glyph_is_placed_at_its_corner(
    left: i32,
    top: i32,
    x: u32,
    y: u32,
    width: u32,
    height: u32,
    r: Option<usize>,
    column: int,
    line: int,
)
    requires
        call_ensures(glyph_pixel, (left, top, x, y, width, height), r),
        column - left == x,
        line - top == y,
    ensures
        r is Some <==> 0 <= column < width && 0 <= line < height,
        r matches Some(place) ==> place == 4 * (width * line + column),
{
    assert(line * width == width * line) by (nonlinear_arith);
}

/// Multiplying by an odd number can be undone.
proof fn lemma_product_undone(x: u32, factor: u32, inverse: u32, turns: int)
    requires
        factor * inverse == turns * 0x1_0000_0000 + 1,
    ensures
        x.wrapping_mul(factor).wrapping_mul(inverse) == x,
{
    let m: int = 0x1_0000_0000;
    let (p, q) = (factor as int, inverse as int);
    assert(x.wrapping_mul(factor) == (x * p) % m);
    div_mod::lemma_mul_mod_noop_left(x * p, q, m);
    mul::lemma_mul_is_associative(x as int, p, q);
    assert(x * (p * q) == m * (turns * x) + x) by (nonlinear_arith)
        requires
            p * q == turns * m + 1,
    ;
    div_mod::lemma_mod_multiples_vanish(turns * x as int, x as int, m);
}

/// Pixels of one row, or of one column, have different noise.
pub proof fn law_noise_differs_along_rows_and_columns(
    x: u32,
    y: u32,
    at_x: u32,
    at_y: u32,
    r: u32,
    s: u32,
)
    requires
        x == at_x || y == at_y,
        (x, y) != (at_x, at_y),
        call_ensures(pixel_noise, (x, y), r),
        call_ensures(pixel_noise, (at_x, at_y), s),
    ensures
        r != s,
{
    let (a, b) = (x.wrapping_mul(0x9e37_79b9), y.wrapping_mul(0x85eb_ca6b));
    let (c, d) = (at_x.wrapping_mul(0x9e37_79b9), at_y.wrapping_mul(0x85eb_ca6b));
    lemma_product_undone(x, 0x9e37_79b9, 0x144c_bc89, 210485888);
    lemma_product_undone(at_x, 0x9e37_79b9, 0x144c_bc89, 210485888);
    lemma_product_undone(y, 0x85eb_ca6b, 0xa5cb_9243, 1455126516);
    lemma_product_undone(at_y, 0x85eb_ca6b, 0xa5cb_9243, 1455126516);
    assert(a == c || b == d);
    assert(a != c || b != d);
    let (m, n) = (a ^ b ^ 42, c ^ d ^ 42);
    assert(m != n) by (bit_vector)
        requires
            m == a ^ b ^ 42,
            n == c ^ d ^ 42,
            a == c || b == d,
            a != c || b != d,
    ;
    let (u, v) = (m ^ (m >> 16), n ^ (n >> 16));
    assert(u != v) by (bit_vector)
        requires
            u == m ^ (m >> 16),
            v == n ^ (n >> 16),
            m != n,
    ;
    lemma_product_undone(u, 0x7feb_352d, 0x1d69_e2a5, 246582719);
    lemma_product_undone(v, 0x7feb_352d, 0x1d69_e2a5, 246582719);
    let (e, f) = (u.wrapping_mul(0x7feb_352d), v.wrapping_mul(0x7feb_352d));
    assert(r != s) by (bit_vector)
        requires
            r == e ^ (e >> 15),
            s == f ^ (f >> 15),
            e != f,
    ;
}

/// The noise is made in three steps: the coordinates, each times its factor modulo 2 to
/// the power of 32, and the seed are put together; the upper half is folded into the
/// lower; and after one more such product the upper bits are folded once more.
pub proof fn law_noise_is_made_in_three_steps(
    x: u32,
    y: u32,
    across: u32,
    down: u32,
    mixed: u32,
    product: u32,
    r: u32,
)
    requires
        across == (2_654_435_769 * x) % 4_294_967_296,
        down == (2_246_822_507 * y) % 4_294_967_296,
        mixed == across ^ down ^ 42,
        product == (2_146_121_005 * (mixed ^ (mixed >> 16))) % 4_294_967_296,
        call_ensures(pixel_noise, (x, y), r),
    ensures
        r == product ^ (product >> 15),
{
}

/// What is drawn is drawn on the background, with nothing left of the last frame.
pub proof fn law_frame_is_drawn_on_the_background<D: Fn(&mut tiny_skia::Pixmap)>(
    canvas: &mut Canvas,
    draw: D,
    r: (),
)
    requires
        call_ensures(Canvas::draw::<D>, (canvas, draw), r),
    ensures
        final(canvas).background == old(canvas).background,
        dimensions(final(canvas).frame) == dimensions(old(canvas).background),
        exists|page: &mut tiny_skia::Pixmap|
            {
                &&& pixels(*page) == pixels(old(canvas).background)
                &&& dimensions(*page) == dimensions(old(canvas).background)
                &&& #[trigger] call_ensures(draw, (page,), ())
                &&& final(canvas).frame == *final(page)
            },
{
}

} // verus!
