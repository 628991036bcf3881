//! Materials: what a surface does to the light that reaches it.
//!
//! The colours of a material are values of a type `C` that this crate never
//! looks into; it decides which of them applies and hands it on.
use crate::spectrum::SpectrumType;
use vstd::prelude::*;

verus! {

/// How a surface answers light.
#[derive(Clone, Copy, Debug, PartialEq, Eq, Structural)]
pub enum Type {
    /// The surface gives off light of its own and ends the path.
    Emitter,
    /// The surface scatters light evenly: a diffuse surface.
    Lambertian,
    /// The surface reflects light like a mirror.
    Specular,
}

impl Type {
    /// The family of basis spectra from which a colour of a material of this
    /// type is built: light that is given off is an illuminant, anything that
    /// only returns light is a reflectance.
    pub fn spectrum_type(&self) -> (family: SpectrumType)
        ensures
            family == match *self {
                Type::Emitter => SpectrumType::Illuminant,
                Type::Lambertian => SpectrumType::Reflectance,
                Type::Specular => SpectrumType::Reflectance,
            },
    {
        match self {
            Type::Emitter => SpectrumType::Illuminant,
            _ => SpectrumType::Reflectance,
        }
    }
}

/// A surface material: its type and the colours that were given for it.
#[derive(Clone, Copy, Debug)]
pub struct Material<C> {
    pub tipo: Type,
    /// The base colour, which a diffuse surface returns.
    pub ambient_color: Option<C>,
    /// The light that an emitter gives off.
    pub emitted_color: Option<C>,
    /// The colour of diffuse reflection.
    pub diffused_color: Option<C>,
    /// The colour of mirror reflection.
    pub specular_color: Option<C>,
}

impl<C> Default for Material<C> {
    /// An emitter without any colour: it gives off nothing.
    fn default() -> (m: Self)
        ensures
            m.tipo == Type::Emitter,
            m.ambient_color is None,
            m.emitted_color is None,
            m.diffused_color is None,
            m.specular_color is None,
    {
        Material {
            tipo: Type::Emitter,
            ambient_color: None,
            emitted_color: None,
            diffused_color: None,
            specular_color: None,
        }
    }
}

impl<C: Copy> Material<C> {
    /// The colour of the channel that the material's type makes active.
    pub open spec fn spec_active_color(&self) -> Option<C> {
        match self.tipo {
            Type::Emitter => self.emitted_color,
            Type::Lambertian => self.ambient_color,
            Type::Specular => self.specular_color,
        }
    }

    /// The first colour that is set, taken in the order ambient, emitted,
    /// diffused, specular.
    pub open spec fn spec_base_color(&self) -> Option<C> {
        if self.ambient_color is Some {
            self.ambient_color
        } else if self.emitted_color is Some {
            self.emitted_color
        } else if self.diffused_color is Some {
            self.diffused_color
        } else {
            self.specular_color
        }
    }

    /// The colour of the channel that the material's type makes active: the
    /// emitted colour of an emitter, the ambient colour of a diffuse surface,
    /// the specular colour of a mirror.  `None` where that colour was not
    /// given; such a material contributes nothing.
    pub fn active_color(&self) -> (color: Option<C>)
        ensures
            color == self.spec_active_color(),
    {
        match self.tipo {
            Type::Emitter => self.emitted_color,
            Type::Lambertian => self.ambient_color,
            Type::Specular => self.specular_color,
        }
    }

    /// The colour that stands for the surface when it is not shaded: the
    /// first that is set of the ambient, emitted, diffused and specular
    /// colours.  `None` where the material has no colour at all.
    pub fn base_color(&self) -> (color: Option<C>)
        ensures
            color == self.spec_base_color(),
            color is None <==> self.ambient_color is None && self.emitted_color is None
                && self.diffused_color is None && self.specular_color is None,
    {
        if let Some(ambient) = self.ambient_color {
            Some(ambient)
        } else if let Some(emitted) = self.emitted_color {
            Some(emitted)
        } else if let Some(diffuse) = self.diffused_color {
            Some(diffuse)
        } else if let Some(specular) = self.specular_color {
            Some(specular)
        } else {
            None
        }
    }
}

} // verus!
