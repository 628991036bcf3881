use raytracer::integrators::{AlbedoIntegrator, Integrator, NormalIntegrator, RandomWalkIntegrator};
use raytracer::material::{Material, Type};
use raytracer::scene::{first_hit, nearest_hit, select_hit, shade_point, trace_ray, Radiance, Selection};
use raytracer::spectrum::Channel::{Blue, Green, Red};
use raytracer::spectrum::{
    split_rgb, Basis, SpectrumType, N_SAMPLES, SAMPLED_LAMBDA_END, SAMPLED_LAMBDA_START,
};

type Color = (u8, u8, u8);

const AMBIENT: Color = (1, 1, 1);
const EMITTED: Color = (2, 2, 2);
const DIFFUSED: Color = (3, 3, 3);
const SPECULAR: Color = (4, 4, 4);

fn full(tipo: Type) -> Material<Color> {
    Material {
        tipo,
        ambient_color: Some(AMBIENT),
        emitted_color: Some(EMITTED),
        diffused_color: Some(DIFFUSED),
        specular_color: Some(SPECULAR),
    }
}

fn bare(tipo: Type) -> Material<Color> {
    let mut material = Material::default();
    material.tipo = tipo;
    material
}

fn shown(light: Radiance<Color>) -> String {
    format!("{:?}", light)
}

#[test]
fn the_default_material_is_a_dark_emitter() {
    let material: Material<Color> = Material::default();
    assert_eq!(material.tipo, Type::Emitter);
    assert!(material.ambient_color.is_none());
    assert!(material.emitted_color.is_none());
    assert!(material.diffused_color.is_none());
    assert!(material.specular_color.is_none());
    assert_eq!(material.active_color(), None);
    assert_eq!(material.base_color(), None);
}

#[test]
fn the_active_color_follows_the_type() {
    assert_eq!(full(Type::Emitter).active_color(), Some(EMITTED));
    assert_eq!(full(Type::Lambertian).active_color(), Some(AMBIENT));
    assert_eq!(full(Type::Specular).active_color(), Some(SPECULAR));
    let mut material = full(Type::Lambertian);
    material.ambient_color = None;
    assert_eq!(material.active_color(), None);
}

#[test]
fn the_base_color_is_the_first_that_is_set() {
    let mut material = full(Type::Specular);
    assert_eq!(material.base_color(), Some(AMBIENT));
    material.ambient_color = None;
    assert_eq!(material.base_color(), Some(EMITTED));
    material.emitted_color = None;
    assert_eq!(material.base_color(), Some(DIFFUSED));
    material.diffused_color = None;
    assert_eq!(material.base_color(), Some(SPECULAR));
    material.specular_color = None;
    assert_eq!(material.base_color(), None);
}

#[test]
fn emitted_colors_are_illuminants() {
    assert_eq!(Type::Emitter.spectrum_type(), SpectrumType::Illuminant);
    assert_eq!(Type::Lambertian.spectrum_type(), SpectrumType::Reflectance);
    assert_eq!(Type::Specular.spectrum_type(), SpectrumType::Reflectance);
}

#[test]
fn an_emitter_ends_the_path_with_its_light() {
    assert_eq!(shown(shade_point(&full(Type::Emitter), 3, false)), shown(Radiance::Constant(EMITTED)));
    assert_eq!(shown(shade_point(&bare(Type::Emitter), 3, false)), shown(Radiance::Black));
}

#[test]
fn a_diffuse_surface_sends_the_path_on_with_one_bounce_less() {
    assert_eq!(
        shown(shade_point(&full(Type::Lambertian), 3, false)),
        shown(Radiance::Diffuse { albedo: AMBIENT, depth: 2 })
    );
    assert_eq!(
        shown(shade_point(&full(Type::Lambertian), 1, true)),
        shown(Radiance::Diffuse { albedo: AMBIENT, depth: 0 })
    );
    assert_eq!(shown(shade_point(&bare(Type::Lambertian), 3, false)), shown(Radiance::Black));
}

#[test]
fn a_mirror_sends_the_path_on_with_its_tint() {
    assert_eq!(
        shown(shade_point(&full(Type::Specular), 5, false)),
        shown(Radiance::Mirror { tint: SPECULAR, depth: 4, fresnel: false })
    );
    assert_eq!(
        shown(shade_point(&full(Type::Specular), 5, true)),
        shown(Radiance::Mirror { tint: SPECULAR, depth: 4, fresnel: true })
    );
    assert_eq!(shown(shade_point(&bare(Type::Specular), 5, false)), shown(Radiance::Black));
}

#[test]
fn without_a_bounce_left_there_is_no_light() {
    for tipo in [Type::Emitter, Type::Lambertian, Type::Specular] {
        assert_eq!(shown(shade_point(&full(tipo), 0, false)), shown(Radiance::Black));
        assert_eq!(shown(trace_ray(Some(&full(tipo)), 0, false)), shown(Radiance::Black));
    }
}

#[test]
fn a_ray_that_hits_nothing_brings_nothing() {
    assert_eq!(shown(trace_ray::<Color>(None, 7, false)), shown(Radiance::Black));
    assert_eq!(
        shown(trace_ray(Some(&full(Type::Lambertian)), 7, false)),
        shown(Radiance::Diffuse { albedo: AMBIENT, depth: 6 })
    );
}

#[test]
fn a_path_of_diffuse_bounces_ends_after_its_depth() {
    let material = full(Type::Lambertian);
    let mut depth = 10;
    let mut rays = 0;
    loop {
        rays += 1;
        match trace_ray(Some(&material), depth, false) {
            Radiance::Diffuse { depth: left, .. } => {
                assert_eq!(left, depth - 1);
                depth = left;
            }
            Radiance::Black => break,
            other => panic!("{:?}", other),
        }
    }
    assert_eq!(rays, 11);
}

#[test]
fn the_nearest_hit_wins_and_the_first_of_equals() {
    assert_eq!(nearest_hit(&vec![]), None);
    assert_eq!(nearest_hit(&vec![None, None]), None);
    assert_eq!(nearest_hit(&vec![None, Some(40), Some(7), None, Some(9)]), Some(2));
    assert_eq!(nearest_hit(&vec![Some(5), Some(3), Some(3), Some(8)]), Some(1));
    assert_eq!(nearest_hit(&vec![Some(0), Some(0)]), Some(0));
    assert_eq!(nearest_hit(&vec![None, None, Some(i64::MAX)]), Some(2));
}

#[test]
fn the_first_hit_is_the_first_present() {
    assert_eq!(first_hit(&vec![]), None);
    assert_eq!(first_hit(&vec![None, None]), None);
    assert_eq!(first_hit(&vec![None, Some(40), Some(7)]), Some(1));
    assert_eq!(first_hit(&vec![Some(9), Some(1)]), Some(0));
}

#[test]
fn a_group_reports_by_its_rule() {
    let hits = vec![None, Some(40), Some(7), None];
    assert_eq!(select_hit(&hits, Selection::Nearest), Some(2));
    assert_eq!(select_hit(&hits, Selection::First), Some(1));
    assert_eq!(select_hit(&vec![None], Selection::Nearest), None);
    assert_eq!(select_hit(&vec![None], Selection::First), None);
}

#[test]
fn the_channels_are_put_in_rising_order() {
    let order = |r, g, b| {
        let s = split_rgb(r, g, b);
        (s.lowest, s.middle, s.highest, s.secondary(), s.primary())
    };
    assert_eq!(order(1, 2, 3), (Red, Green, Blue, Basis::Cyan, Basis::Blue));
    assert_eq!(order(1, 3, 2), (Red, Blue, Green, Basis::Cyan, Basis::Green));
    assert_eq!(order(2, 1, 3), (Green, Red, Blue, Basis::Magenta, Basis::Blue));
    assert_eq!(order(3, 1, 2), (Green, Blue, Red, Basis::Magenta, Basis::Red));
    assert_eq!(order(2, 3, 1), (Blue, Red, Green, Basis::Yellow, Basis::Green));
    assert_eq!(order(3, 2, 1), (Blue, Green, Red, Basis::Yellow, Basis::Red));
}

#[test]
fn equal_channels_keep_the_order_red_green_blue() {
    let order = |r, g, b| {
        let s = split_rgb(r, g, b);
        (s.lowest, s.middle, s.highest)
    };
    assert_eq!(order(5, 5, 5), (Red, Green, Blue));
    assert_eq!(order(2, 2, 8), (Red, Green, Blue));
    assert_eq!(order(8, 2, 2), (Green, Blue, Red));
    assert_eq!(order(2, 8, 2), (Red, Blue, Green));
    assert_eq!(order(8, 8, 2), (Blue, Red, Green));
    assert_eq!(order(8, 2, 8), (Green, Red, Blue));
    assert_eq!(order(2, 8, 8), (Red, Green, Blue));
}

#[test]
fn the_sampled_range() {
    assert_eq!(N_SAMPLES, 60);
    assert_eq!(SAMPLED_LAMBDA_START, 400);
    assert_eq!(SAMPLED_LAMBDA_END, 700);
}

#[test]
fn the_integrators_know_their_depth_and_samples() {
    let walk = Integrator::RandomWalkIntegrator(RandomWalkIntegrator::new(10, 100));
    let albedo = Integrator::AlbedoIntegrator(AlbedoIntegrator::new(20));
    let normal = Integrator::NormalIntegrator(NormalIntegrator::new(30));
    assert_eq!((walk.max_depth(), walk.total_samples()), (10, 100));
    assert_eq!((albedo.max_depth(), albedo.total_samples()), (0, 20));
    assert_eq!((normal.max_depth(), normal.total_samples()), (0, 30));
    assert!(!RandomWalkIntegrator::new(10, 100).fresnel());
    assert!(RandomWalkIntegrator::new(10, 100).with_fresnel(true).fresnel());
}

#[test]
fn the_random_walk_shades_what_it_hits() {
    let walk = Integrator::RandomWalkIntegrator(RandomWalkIntegrator::new(10, 100));
    assert_eq!(shown(walk.incident_light::<Color>(None, 10)), shown(Radiance::Black));
    assert_eq!(
        shown(walk.incident_light(Some(&full(Type::Lambertian)), 10)),
        shown(Radiance::Diffuse { albedo: AMBIENT, depth: 9 })
    );
    assert_eq!(shown(walk.incident_light(Some(&full(Type::Lambertian)), 0)), shown(Radiance::Black));
    assert_eq!(
        shown(walk.incident_light(Some(&full(Type::Emitter)), 1)),
        shown(Radiance::Constant(EMITTED))
    );
    let fresnel = Integrator::RandomWalkIntegrator(RandomWalkIntegrator::new(10, 100).with_fresnel(true));
    assert_eq!(
        shown(fresnel.incident_light(Some(&full(Type::Specular)), 2)),
        shown(Radiance::Mirror { tint: SPECULAR, depth: 1, fresnel: true })
    );
}

#[test]
fn the_albedo_integrator_shows_the_base_color() {
    let albedo = Integrator::AlbedoIntegrator(AlbedoIntegrator::new(20));
    assert_eq!(shown(albedo.incident_light::<Color>(None, 0)), shown(Radiance::Black));
    assert_eq!(
        shown(albedo.incident_light(Some(&full(Type::Specular)), 0)),
        shown(Radiance::Constant(AMBIENT))
    );
    let mut material = bare(Type::Lambertian);
    assert_eq!(shown(albedo.incident_light(Some(&material), 0)), shown(Radiance::Black));
    material.specular_color = Some(SPECULAR);
    assert_eq!(shown(albedo.incident_light(Some(&material), 0)), shown(Radiance::Constant(SPECULAR)));
}

#[test]
fn the_normal_integrator_shows_the_normal() {
    let normal = Integrator::NormalIntegrator(NormalIntegrator::new(30));
    assert_eq!(shown(normal.incident_light::<Color>(None, 0)), shown(Radiance::Black));
    assert_eq!(shown(normal.incident_light(Some(&bare(Type::Emitter)), 0)), shown(Radiance::Normal));
}
