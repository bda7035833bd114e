//! The hourly variables asked of the weather service, their labels, and the
//! plots they are drawn in.

use vstd::prelude::*;
use crate::text::same_text;

verus! {

/// The texts of a sequence of string slices.
pub open spec fn texts(s: Seq<&'static str>) -> Seq<Seq<char>> {
    s.map_values(|t: &'static str| t@)
}

/// The hourly variables, by the name the weather service knows them by, with
/// their display labels.
pub open spec fn hourly_fields() -> Seq<(Seq<char>, Seq<char>)> {
    seq![
        ("temperature_2m"@, "temperature"@),
        ("apparent_temperature"@, "apparent temperature"@),
        ("wind_speed_10m"@, "wind speed"@),
        ("wind_gusts_10m"@, "wind gusts"@),
        ("precipitation"@, "precipitation"@),
        ("dew_point_2m"@, "dew point"@),
        ("cloud_cover_low"@, "cloud cover low"@),
        ("cloud_cover_mid"@, "cloud cover mid"@),
        ("cloud_cover_high"@, "cloud cover high"@),
        ("soil_moisture_0_to_1cm"@, "soil moisture (0-1cm)"@),
        ("soil_moisture_1_to_3cm"@, "soil moisture (1-3cm)"@),
        ("soil_moisture_3_to_9cm"@, "soil moisture (3-9cm)"@),
        ("soil_moisture_9_to_27cm"@, "soil moisture (9-27cm)"@),
        ("shortwave_radiation_instant"@, "global horizontal irradiance"@),
        ("direct_normal_irradiance_instant"@, "direct normal irradiance"@),
        ("diffuse_radiation_instant"@, "diffuse horizontal irradiance"@),
    ]
}

/// The names of the hourly variables.
pub open spec fn field_names() -> Seq<Seq<char>> {
    hourly_fields().map_values(|f: (Seq<char>, Seq<char>)| f.0)
}

/// `parts` joined with `sep` between each two of them.
pub open spec fn joined(parts: Seq<Seq<char>>, sep: Seq<char>) -> Seq<char>
    decreases parts.len(),
{
    if parts.len() == 0 {
        Seq::empty()
    } else if parts.len() == 1 {
        parts[0]
    } else {
        joined(parts.drop_last(), sep) + sep + parts.last()
    }
}

/// `s` cut at every occurrence of `c`: the pieces between them, in order
/// (one piece when `c` does not occur).
pub open spec fn split_on(s: Seq<char>, c: char) -> Seq<Seq<char>>
    decreases s.len(),
{
    if s.len() == 0 {
        seq![Seq::empty()]
    } else {
        let pieces = split_on(s.drop_last(), c);
        if s.last() == c {
            pieces.push(Seq::empty())
        } else {
            pieces.update(pieces.len() - 1, pieces.last().push(s.last()))
        }
    }
}

/// Cutting `a`, `c` and a piece without `c` gives the pieces of `a`
/// followed by that piece.
proof fn lemma_split_append(a: Seq<char>, c: char, b: Seq<char>)
    requires
        !b.contains(c),
    ensures
        split_on(a + seq![c] + b, c) == split_on(a, c).push(b),
        split_on(b, c) == seq![b],
    decreases b.len(),
{
    if b.len() == 0 {
        assert((a + seq![c] + b).drop_last() =~= a);
        assert(b =~= Seq::<char>::empty());
    } else {
        let shorter = b.drop_last();
        assert(!shorter.contains(c)) by {
            if shorter.contains(c) {
                let k = choose|k: int| 0 <= k < shorter.len() && shorter[k] == c;
                assert(b[k] == c);
            }
        }
        lemma_split_append(a, c, shorter);
        assert((a + seq![c] + b).drop_last() =~= a + seq![c] + shorter);
        assert(b.last() != c) by {
            assert(b[b.len() - 1] == b.last());
        }
        assert(shorter.push(b.last()) =~= b);
        assert(split_on(a + seq![c] + b, c) =~= split_on(a, c).push(b));
        assert(b.drop_last() =~= shorter);
        assert(split_on(b, c) =~= seq![b]);
    }
}

/// Joining parts that do not hold `c` with `c` between them, and cutting the
/// result at every `c`, gives back the parts.
pub proof fn lemma_split_joined(parts: Seq<Seq<char>>, c: char)
    requires
        parts.len() >= 1,
        forall|i: int| 0 <= i < parts.len() ==> !(#[trigger] parts[i]).contains(c),
    ensures
        split_on(joined(parts, seq![c]), c) == parts,
    decreases parts.len(),
{
    if parts.len() == 1 {
        lemma_split_append(Seq::empty(), c, parts[0]);
        assert(parts =~= seq![parts[0]]);
    } else {
        let earlier = parts.drop_last();
        assert forall|i: int| 0 <= i < earlier.len() implies !(#[trigger] earlier[i]).contains(c) by {
            assert(earlier[i] == parts[i]);
        }
        lemma_split_joined(earlier, c);
        assert(!parts.last().contains(c)) by {
            assert(parts[parts.len() - 1] == parts.last());
        }
        lemma_split_append(joined(earlier, seq![c]), c, parts.last());
        assert(parts =~= earlier.push(parts.last()));
    }
}

/// The hourly variables with their labels.
pub fn fields() -> (r: Vec<(&'static str, &'static str)>)
    ensures
        r@.map_values(|f: (&'static str, &'static str)| (f.0@, f.1@)) == hourly_fields(),
{
    let r = vec![
        ("temperature_2m", "temperature"),
        ("apparent_temperature", "apparent temperature"),
        ("wind_speed_10m", "wind speed"),
        ("wind_gusts_10m", "wind gusts"),
        ("precipitation", "precipitation"),
        ("dew_point_2m", "dew point"),
        ("cloud_cover_low", "cloud cover low"),
        ("cloud_cover_mid", "cloud cover mid"),
        ("cloud_cover_high", "cloud cover high"),
        ("soil_moisture_0_to_1cm", "soil moisture (0-1cm)"),
        ("soil_moisture_1_to_3cm", "soil moisture (1-3cm)"),
        ("soil_moisture_3_to_9cm", "soil moisture (3-9cm)"),
        ("soil_moisture_9_to_27cm", "soil moisture (9-27cm)"),
        ("shortwave_radiation_instant", "global horizontal irradiance"),
        ("direct_normal_irradiance_instant", "direct normal irradiance"),
        ("diffuse_radiation_instant", "diffuse horizontal irradiance"),
    ];
    assert(r@.map_values(|f: (&'static str, &'static str)| (f.0@, f.1@)) =~= hourly_fields());
    r
}

/// The arguments of the `hourly` parameter of a forecast request: the names
/// of the hourly variables separated by commas.
pub fn url_args() -> (r: String)
    ensures
        r@ == joined(field_names(), seq![',']),
{
    let fs = fields();
    let ghost names = field_names();
    let mut out = String::new();
    let mut i: usize = 0;
    assert(names.take(0) =~= Seq::<Seq<char>>::empty());
    while i < fs.len()
        invariant
            fs@.map_values(|f: (&'static str, &'static str)| (f.0@, f.1@)) == hourly_fields(),
            names == field_names(),
            names.len() == fs@.len(),
            i <= fs.len(),
            out@ == joined(names.take(i as int), seq![',']),
        decreases fs.len() - i,
    {
        assert(fs@[i as int].0@ == names[i as int]);
        if i > 0 {
            proof {
                reveal_strlit(",");
            }
            out.append(",");
        }
        out.append(fs[i].0);
        assert(names.take(i + 1).drop_last() =~= names.take(i as int));
        assert(out@ =~= joined(names.take(i + 1), seq![',']));
        i = i + 1;
    }
    assert(names.take(fs.len() as int) =~= names);
    out
}

/// Whether `i` is the position of the first variable named `field`.
pub open spec fn first_named(field: Seq<char>, i: int) -> bool {
    &&& 0 <= i < hourly_fields().len()
    &&& hourly_fields()[i].0 == field
    &&& forall|j: int| 0 <= j < i ==> #[trigger] hourly_fields()[j].0 != field
}

/// Whether `field` names an hourly variable.
pub open spec fn is_field(field: Seq<char>) -> bool {
    exists|i: int| 0 <= i < hourly_fields().len() && #[trigger] hourly_fields()[i].0 == field
}

/// Get the plot label for a specific field.
pub fn label(field: &str) -> (l: &'static str)
    requires
        is_field(field@),
    ensures
        exists|i: int| first_named(field@, i) && l@ == hourly_fields()[i].1,
{
    let fs = fields();
    let mut i: usize = 0;
    while i < fs.len()
        invariant
            fs@.map_values(|f: (&'static str, &'static str)| (f.0@, f.1@)) == hourly_fields(),
            i <= fs.len(),
            is_field(field@),
            forall|j: int| 0 <= j < i ==> hourly_fields()[j].0 != field@,
        decreases fs.len() - i,
    {
        assert(fs@[i as int].0@ == hourly_fields()[i as int].0);
        if same_text(fs[i].0, field) {
            assert(first_named(field@, i as int));
            return fs[i].1;
        }
        i = i + 1;
    }
    let ghost k = choose|k: int| 0 <= k < hourly_fields().len() && #[trigger] hourly_fields()[k].0 == field@;
    assert(false);
    fs[0].1
}

/// The plots, each a title with the variables drawn in it.
pub open spec fn plot_groups() -> Seq<(Seq<char>, Seq<Seq<char>>)> {
    seq![
        ("temperature"@, seq!["temperature_2m"@, "apparent_temperature"@]),
        ("wind"@, seq!["wind_speed_10m"@, "wind_gusts_10m"@]),
        ("dew point"@, seq!["dew_point_2m"@]),
        ("precipitation"@, seq!["precipitation"@]),
        ("soil moisture"@, seq![
            "soil_moisture_0_to_1cm"@,
            "soil_moisture_1_to_3cm"@,
            "soil_moisture_3_to_9cm"@,
            "soil_moisture_9_to_27cm"@,
        ]),
        ("solar radiation"@, seq![
            "shortwave_radiation_instant"@,
            "direct_normal_irradiance_instant"@,
            "diffuse_radiation_instant"@,
        ]),
        ("cloud cover"@, seq!["cloud_cover_low"@, "cloud_cover_mid"@, "cloud_cover_high"@]),
    ]
}

/// The plots, each a title with the variables drawn in it, in the order in
/// which they are drawn.
pub fn plots() -> (r: Vec<(&'static str, Vec<&'static str>)>)
    ensures
        r@.map_values(|g: (&'static str, Vec<&'static str>)| (g.0@, texts(g.1@))) == plot_groups(),
{
    let r = vec![
        ("temperature", vec!["temperature_2m", "apparent_temperature"]),
        ("wind", vec!["wind_speed_10m", "wind_gusts_10m"]),
        ("dew point", vec!["dew_point_2m"]),
        ("precipitation", vec!["precipitation"]),
        ("soil moisture", vec![
            "soil_moisture_0_to_1cm",
            "soil_moisture_1_to_3cm",
            "soil_moisture_3_to_9cm",
            "soil_moisture_9_to_27cm",
        ]),
        ("solar radiation", vec![
            "shortwave_radiation_instant",
            "direct_normal_irradiance_instant",
            "diffuse_radiation_instant",
        ]),
        ("cloud cover", vec!["cloud_cover_low", "cloud_cover_mid", "cloud_cover_high"]),
    ];
    assert forall|i: int| 0 <= i < r@.len() implies texts(r@[i].1@) =~= plot_groups()[i].1 by {}
    assert(r@.map_values(|g: (&'static str, Vec<&'static str>)| (g.0@, texts(g.1@))) =~= plot_groups());
    r
}

/// Every variable drawn in a plot is one of the hourly variables, so it has
/// a label.
pub proof fn lemma_plotted_are_fields()
    ensures
        forall|g: int, k: int|
            0 <= g < plot_groups().len() && 0 <= k < plot_groups()[g].1.len() ==> is_field(
                #[trigger] plot_groups()[g].1[k],
            ),
{
    assert forall|g: int, k: int|
        0 <= g < plot_groups().len() && 0 <= k < plot_groups()[g].1.len() implies is_field(
            #[trigger] plot_groups()[g].1[k],
        ) by {
        if g == 0 && k == 0 {
            assert(hourly_fields()[0].0 == plot_groups()[g].1[k]);
        }
        if g == 0 && k == 1 {
            assert(hourly_fields()[1].0 == plot_groups()[g].1[k]);
        }
        if g == 1 && k == 0 {
            assert(hourly_fields()[2].0 == plot_groups()[g].1[k]);
        }
        if g == 1 && k == 1 {
            assert(hourly_fields()[3].0 == plot_groups()[g].1[k]);
        }
        if g == 2 && k == 0 {
            assert(hourly_fields()[5].0 == plot_groups()[g].1[k]);
        }
        if g == 3 && k == 0 {
            assert(hourly_fields()[4].0 == plot_groups()[g].1[k]);
        }
        if g == 4 && k == 0 {
            assert(hourly_fields()[9].0 == plot_groups()[g].1[k]);
        }
        if g == 4 && k == 1 {
            assert(hourly_fields()[10].0 == plot_groups()[g].1[k]);
        }
        if g == 4 && k == 2 {
            assert(hourly_fields()[11].0 == plot_groups()[g].1[k]);
        }
        if g == 4 && k == 3 {
            assert(hourly_fields()[12].0 == plot_groups()[g].1[k]);
        }
        if g == 5 && k == 0 {
            assert(hourly_fields()[13].0 == plot_groups()[g].1[k]);
        }
        if g == 5 && k == 1 {
            assert(hourly_fields()[14].0 == plot_groups()[g].1[k]);
        }
        if g == 5 && k == 2 {
            assert(hourly_fields()[15].0 == plot_groups()[g].1[k]);
        }
        if g == 6 && k == 0 {
            assert(hourly_fields()[6].0 == plot_groups()[g].1[k]);
        }
        if g == 6 && k == 1 {
            assert(hourly_fields()[7].0 == plot_groups()[g].1[k]);
        }
        if g == 6 && k == 2 {
            assert(hourly_fields()[8].0 == plot_groups()[g].1[k]);
        }
    }
}

/// Cutting the `hourly` arguments at the commas gives the names of the
/// hourly variables, each once and in order: none is lost, cut or merged.
pub proof fn lemma_url_args_name_fields()
    ensures
        split_on(joined(field_names(), seq![',']), ',') == field_names(),
{
    assert forall|i: int| 0 <= i < field_names().len() implies !(#[trigger] field_names()[i]).contains(
        ',',
    ) by {
        reveal_strlit("temperature_2m");
        reveal_strlit("apparent_temperature");
        reveal_strlit("wind_speed_10m");
        reveal_strlit("wind_gusts_10m");
        reveal_strlit("precipitation");
        reveal_strlit("dew_point_2m");
        reveal_strlit("cloud_cover_low");
        reveal_strlit("cloud_cover_mid");
        reveal_strlit("cloud_cover_high");
        reveal_strlit("soil_moisture_0_to_1cm");
        reveal_strlit("soil_moisture_1_to_3cm");
        reveal_strlit("soil_moisture_3_to_9cm");
        reveal_strlit("soil_moisture_9_to_27cm");
        reveal_strlit("shortwave_radiation_instant");
        reveal_strlit("direct_normal_irradiance_instant");
        reveal_strlit("diffuse_radiation_instant");
        let name = field_names()[i];
        if name.contains(',') {
            let k = choose|k: int| 0 <= k < name.len() && name[k] == ',';
            assert(false);
        }
    }
    lemma_split_joined(field_names(), ',');
}

} // verus!
