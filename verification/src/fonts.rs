//! The choice of the font that titles are written in.
use vstd::prelude::*;

verus! {

/// The weight of bold faces.
pub const BOLD: u16 = 700;

/// A database of fonts of `fontdb`.
#[verifier::external_type_specification]
#[verifier::external_body]
pub struct ExDatabase(fontdb::Database);

/// The identifier of a face in such a database.
#[verifier::external_type_specification]
#[verifier::external_body]
pub struct ExFaceId(fontdb::ID);

/// What a choice of face depends on.
pub struct Face {
    pub id: fontdb::ID,
    pub families: Seq<Seq<char>>,
    /// The weight, 700 for bold.
    pub weight: u16,
    /// How wide the face is, from 1 to 9.
    pub stretch: u16,
    /// How slanted the face is: 0 upright, 1 italic, 2 oblique.
    pub style: u16,
}

/// The faces of a database, in order.
pub uninterp spec fn faces(database: fontdb::Database) -> Seq<Face>;

/// The family that a database takes for the generic family without serifs.
pub uninterp spec fn sans_serif(database: fontdb::Database) -> Seq<char>;

/// The face that a query picks from faces for a family or, where it has no face,
/// for the generic family without serifs; in the given weight where there is
/// one, upright and of normal width.
pub uninterp spec fn best_face(
    faces: Seq<Face>,
    sans_serif: Seq<char>,
    family: Seq<char>,
    weight: u16,
) -> Option<fontdb::ID>;

/// The identifiers and weights of faces.
pub open spec fn weights_of(faces: Seq<Face>) -> Seq<(fontdb::ID, u16)> {
    faces.map_values(|face: Face| (face.id, face.weight))
}

/// The weights alone.
pub open spec fn numbers_of(weights: Seq<(fontdb::ID, u16)>) -> Seq<u16> {
    weights.map_values(|face: (fontdb::ID, u16)| face.1)
}

/// Calls `fontdb::Database::set_sans_serif_family`: the family is the one taken
/// for the generic family without serifs from now on, and the faces stay.
#[verifier::external_body]
fn set_sans_serif(database: &mut fontdb::Database, family: &str)
    ensures
        sans_serif(*final(database)) == family@,
        faces(*final(database)) == faces(*old(database)),
{
    database.set_sans_serif_family(family);
}

/// Calls `fontdb::Database::query`, with what a query asks for by default of
/// slant and width: upright and normal. Which face it picks follows from the
/// faces, the generic family, the family and the weight.
#[verifier::external_body]
fn query_face(database: &fontdb::Database, family: &str, weight: u16) -> (r: Option<fontdb::ID>)
    ensures
        r == best_face(faces(*database), sans_serif(*database), family@, weight),
{
    database.query(
        &fontdb::Query {
            families: &[fontdb::Family::Name(family), fontdb::Family::SansSerif],
            weight: fontdb::Weight(weight),
            ..Default::default()
        },
    )
}

/// Calls `fontdb::Database::faces`, which gives the faces in order: their
/// identifiers and weights are taken.
#[verifier::external_body]
fn face_weights(database: &fontdb::Database) -> (r: Vec<(fontdb::ID, u16)>)
    ensures
        r@ == weights_of(faces(*database)),
{
    database.faces().map(|face| (face.id, face.weight.0)).collect()
}

/// How far a weight is from another.
pub open spec fn weight_distance(a: u16, b: u16) -> int {
    if a < b {
        b - a
    } else {
        a - b
    }
}

/// Whether a weight is the first of those that are nearest to another.
pub open spec fn nearest(weights: Seq<u16>, wanted: u16, position: int) -> bool {
    &&& 0 <= position < weights.len()
    &&& forall|i: int|
        0 <= i < weights.len() ==> weight_distance(weights[position], wanted) <= weight_distance(
            #[trigger] weights[i],
            wanted,
        )
    &&& forall|i: int|
        0 <= i < position ==> weight_distance(weights[position], wanted) < weight_distance(
            #[trigger] weights[i],
            wanted,
        )
}

/// The position of the first of the weights that are nearest to another.
pub fn nearest_weight(weights: &Vec<u16>, wanted: u16) -> (r: Option<usize>)
    ensures
        match r {
            Some(position) => nearest(weights@, wanted, position as int),
            None => weights@.len() == 0,
        },
{
    if weights.len() == 0 {
        return None;
    }
    let mut best: usize = 0;
    for i in 1..weights.len()
        invariant
            best < i <= weights@.len(),
            forall|k: int|
                0 <= k < i ==> weight_distance(weights@[best as int], wanted) <= weight_distance(
                    #[trigger] weights@[k],
                    wanted,
                ),
            forall|k: int|
                0 <= k < best ==> weight_distance(weights@[best as int], wanted) < weight_distance(
                    #[trigger] weights@[k],
                    wanted,
                ),
    {
        if distance(weights[i], wanted) < distance(weights[best], wanted) {
            best = i;
        }
    }
    Some(best)
}

/// How far a weight is from another.
fn distance(a: u16, b: u16) -> (r: u16)
    ensures
        r == weight_distance(a, b),
{
    if a < b {
        b - a
    } else {
        a - b
    }
}

/// The position of a nearest weight is determined.
pub proof fn law_nearest_weight_is_determined(weights: Seq<u16>, wanted: u16, a: int, b: int)
    requires
        nearest(weights, wanted, a),
        nearest(weights, wanted, b),
    ensures
        a == b,
{
    if a < b {
        assert(weight_distance(weights[b], wanted) < weight_distance(weights[a], wanted));
    }
    if b < a {
        assert(weight_distance(weights[a], wanted) < weight_distance(weights[b], wanted));
    }
}

/// The face of a font that titles are written in, given the face that a query
/// picked: that one, or else the first of those whose weight is nearest to bold.
pub fn title_face(queried: Option<fontdb::ID>, weights: &Vec<(fontdb::ID, u16)>) -> (r: Option<
    fontdb::ID,
>)
    ensures
        match queried {
            Some(id) => r == Some(id),
            None => match r {
                Some(id) => exists|position: int| #[trigger]
                    nearest(numbers_of(weights@), BOLD, position)
                        && id == weights@[position].0,
                None => weights@.len() == 0,
            },
        },
{
    if queried.is_some() {
        return queried;
    }
    let ghost numbers = numbers_of(weights@);
    let mut list: Vec<u16> = Vec::new();
    for i in 0..weights.len()
        invariant
            numbers == numbers_of(weights@),
            list@ == numbers.take(i as int),
    {
        list.push(weights[i].1);
        proof {
            assert(list@ =~= numbers.take(i + 1));
        }
    }
    proof {
        assert(numbers.take(weights@.len() as int) =~= numbers);
    }
    match nearest_weight(&list, BOLD) {
        Some(position) => Some(weights[position].0),
        None => None,
    }
}

/// Whether a face is the one that titles are written in: the one that a query
/// for bold faces of a family picks, or else the first of those whose weight is
/// nearest to bold.
pub open spec fn chosen(faces: Seq<Face>, family: Seq<char>, id: fontdb::ID) -> bool {
    match best_face(faces, family, family, BOLD) {
        Some(best) => id == best,
        None => exists|position: int| #[trigger]
            nearest(numbers_of(weights_of(faces)), BOLD, position) && id
                == faces[position].id,
    }
}

/// The face of a font that titles are written in, given the fonts of the system.
pub fn system_font(database: &mut fontdb::Database) -> (r: Option<fontdb::ID>)
    ensures
        faces(*final(database)) == faces(*old(database)),
        sans_serif(*final(database)) == "Noto Sans"@,
        match r {
            Some(id) => chosen(faces(*old(database)), "Noto Sans"@, id),
            None => best_face(faces(*old(database)), "Noto Sans"@, "Noto Sans"@, BOLD) is None
                && faces(*old(database)).len() == 0,
        },
{
    set_sans_serif(database, "Noto Sans");
    let queried = query_face(database, "Noto Sans", BOLD);
    let weights = face_weights(database);
    title_face(queried, &weights)
}

// ---------------------------------------------------------------------------
// Laws
// ---------------------------------------------------------------------------

/// Whether a weight is not further than so much above or below another.
pub open spec fn within(weight: u16, wanted: u16, gap: int) -> bool {
    wanted - gap <= weight <= wanted + gap
}

/// Whether a weight is nearer to the wanted one than another.
pub open spec fn nearer(weight: u16, other: u16, wanted: u16) -> bool {
    exists|gap: int| within(weight, wanted, gap) && !#[trigger] within(other, wanted, gap)
}

/// The distance of a weight is the least gap that it is within.
proof fn lemma_within(weight: u16, wanted: u16, gap: int)
    ensures
        within(weight, wanted, gap) <==> weight_distance(weight, wanted) <= gap,
{
}

/// Whether no weight is nearer to the wanted one than that at a position, and none
/// before it is as near.
pub open spec fn first_of_nearest(weights: Seq<u16>, wanted: u16, position: int) -> bool {
    &&& 0 <= position < weights.len()
    &&& forall|i: int, gap: int|
        0 <= i < weights.len() && #[trigger] within(weights[i], wanted, gap) ==> within(
            weights[position],
            wanted,
            gap,
        )
    &&& forall|i: int|
        0 <= i < position ==> nearer(weights[position], #[trigger] weights[i], wanted)
}

/// The first of the nearest weights is nearer than those before it and not further than
/// any.
proof fn lemma_first_of_nearest(weights: Seq<u16>, wanted: u16, position: int)
    requires
        nearest(weights, wanted, position),
    ensures
        first_of_nearest(weights, wanted, position),
{
    assert forall|i: int, gap: int|
        0 <= i < weights.len() && #[trigger] within(weights[i], wanted, gap) implies within(
        weights[position],
        wanted,
        gap,
    ) by {
        lemma_within(weights[i], wanted, gap);
        lemma_within(weights[position], wanted, gap);
    }
    assert forall|i: int| 0 <= i < position implies nearer(
        weights[position],
        #[trigger] weights[i],
        wanted,
    ) by {
        let gap = weight_distance(weights[position], wanted);
        lemma_within(weights[i], wanted, gap);
        lemma_within(weights[position], wanted, gap);
        assert(within(weights[position], wanted, gap) && !within(weights[i], wanted, gap));
    }
}

/// The weight that is found is the first of those that are nearest, and one is found
/// where there are any.
pub proof fn law_nearest_weight_is_found(weights: &Vec<u16>, wanted: u16, r: Option<usize>)
    requires
        call_ensures(nearest_weight, (weights, wanted), r),
    ensures
        r is None <==> weights@.len() == 0,
        r matches Some(position) ==> first_of_nearest(weights@, wanted, position as int),
{
    if r is Some {
        lemma_first_of_nearest(weights@, wanted, r->0 as int);
    }
}

/// Whether faces, with their weights, are such that the given one is the first of those
/// that are nearest to the weight 700.
pub open spec fn first_nearly_bold(
    weights: Seq<(fontdb::ID, u16)>,
    position: int,
    id: fontdb::ID,
) -> bool {
    &&& 0 <= position < weights.len()
    &&& weights[position].0 == id
    &&& first_of_nearest(Seq::new(weights.len(), |i: int| weights[i].1), 700, position)
}

/// A face that the query picked is taken. Where it picked none, the first of those that
/// are nearest to bold is, and there is none only where there are no faces.
pub proof fn law_title_face_is_nearly_bold(
    queried: Option<fontdb::ID>,
    weights: &Vec<(fontdb::ID, u16)>,
    r: Option<fontdb::ID>,
)
    requires
        call_ensures(title_face, (queried, weights), r),
    ensures
        queried is Some ==> r == queried,
        queried is None ==> (r is None <==> weights@.len() == 0),
        queried is None && r is Some ==> exists|position: int| #[trigger]
            first_nearly_bold(weights@, position, r->0),
{
    if queried is None {
        let numbers = numbers_of(weights@);
        assert(numbers =~= Seq::new(weights@.len(), |i: int| weights@[i].1));
        if r is Some {
            let position = choose|position: int| #[trigger]
                nearest(numbers, BOLD, position) && r->0 == weights@[position].0;
            lemma_first_of_nearest(numbers, BOLD, position);
            assert(first_nearly_bold(weights@, position, r->0));
        }
    }
}

/// The face of the system is the one that a query for Noto Sans in the weight 700
/// picks, where Noto Sans is the family without serifs too; where it picks none, the
/// first of those that are nearest to that weight.
pub proof fn law_system_font_is_bold_noto_sans(
    database: &mut fontdb::Database,
    r: Option<fontdb::ID>,
)
    requires
        call_ensures(system_font, (database,), r),
    ensures
        best_face(faces(*old(database)), "Noto Sans"@, "Noto Sans"@, 700) is Some ==> r
            == best_face(faces(*old(database)), "Noto Sans"@, "Noto Sans"@, 700),
        best_face(faces(*old(database)), "Noto Sans"@, "Noto Sans"@, 700) is None ==> (r is None
            <==> faces(*old(database)).len() == 0),
        best_face(faces(*old(database)), "Noto Sans"@, "Noto Sans"@, 700) is None && r is Some
            ==> exists|position: int|
            0 <= position < faces(*old(database)).len() && (#[trigger] faces(
                *old(database),
            )[position]).id == r->0 && first_of_nearest(
                Seq::new(faces(*old(database)).len(), |i: int| faces(*old(database))[i].weight),
                700,
                position,
            ),
        faces(*final(database)) == faces(*old(database)),
{
    let all = faces(*old(database));
    let numbers = numbers_of(weights_of(all));
    assert(numbers =~= Seq::new(all.len(), |i: int| all[i].weight));
    if best_face(all, "Noto Sans"@, "Noto Sans"@, BOLD) is None && r is Some {
        let position = choose|position: int| #[trigger]
            nearest(numbers, BOLD, position) && r->0 == all[position].id;
        lemma_first_of_nearest(numbers, BOLD, position);
        assert(all[position].id == r->0);
    }
}

} // verus!
