use vstd::prelude::*;

use crate::fecha::numero_valido;
use crate::fecha::parsea_con_signo;
use crate::fecha::sin_signo;
use crate::fecha::valor;

verus! {

/// Un enlace a un documento del boletin: apartado del sumario, origen y
/// titulo legible. Solo alimenta el informe de descargas.
#[derive(Clone)]
pub struct EnlacePDF {
    pub apartado: String,
    pub url: String,
    pub titulo: String,
}

/// Construye el enlace de una coincidencia del sumario: nada si la
/// coincidencia no trae destino; si lo trae, el destino colgado del
/// dominio del boletin, con su titulo y su apartado.
pub fn construye_enlace(href: Option<String>, titulo: String, apartado: &String) -> (r: Option<
    EnlacePDF,
>)
    ensures
        match r {
            Some(e) => href matches Some(h) && e.url@ == "https://boe.es"@ + h@ && e.titulo@
                == titulo@ && e.apartado@ == apartado@,
            None => href is None,
        },
{
    match href {
        None => None,
        Some(h) => {
            let mut url = String::from_str("https://boe.es");
            url.append(h.as_str());
            Some(EnlacePDF { apartado: apartado.clone(), url, titulo })
        },
    }
}

/// Linea del informe de descargas para un enlace: apartado, titulo y
/// origen separados por tabuladores, con salto final.
pub open spec fn espec_linea(e: EnlacePDF) -> Seq<char> {
    e.apartado@ + "\t"@ + e.titulo@ + "\t"@ + e.url@ + "\n"@
}

/// Contenido del informe de descargas: la cabecera, sin salto tras
/// ella, y una linea por enlace en su orden.
pub open spec fn espec_informe(ls: Seq<EnlacePDF>) -> Seq<char>
    decreases ls.len(),
{
    if ls.len() == 0 {
        "Apartado\tTítulo\tUrl"@
    } else {
        espec_informe(ls.drop_last()) + espec_linea(ls.last())
    }
}

/// Contenido del informe de descargas de una lista de enlaces.
pub fn informe_descargas(enlaces: &Vec<EnlacePDF>) -> (r: String)
    ensures
        r@ == espec_informe(enlaces@),
{
    let mut contenido = String::from_str("Apartado\tTítulo\tUrl");
    let mut i: usize = 0;
    proof {
        assert(enlaces@.subrange(0, 0) =~= Seq::<EnlacePDF>::empty());
    }
    while i < enlaces.len()
        invariant
            0 <= i <= enlaces@.len(),
            contenido@ == espec_informe(enlaces@.subrange(0, i as int)),
        decreases enlaces@.len() - i,
    {
        contenido.append(enlaces[i].apartado.as_str());
        contenido.append("\t");
        contenido.append(enlaces[i].titulo.as_str());
        contenido.append("\t");
        contenido.append(enlaces[i].url.as_str());
        contenido.append("\n");
        i = i + 1;
        proof {
            let s1 = enlaces@.subrange(0, i as int);
            assert(s1.drop_last() =~= enlaces@.subrange(0, i as int - 1));
            assert(s1.last() == enlaces@[i - 1]);
            assert(contenido@ =~= espec_informe(s1));
        }
    }
    proof {
        assert(enlaces@.subrange(0, enlaces@.len() as int) =~= enlaces@);
    }
    contenido
}

/// Byte de un caracter para la lectura de cifras: el propio byte si el
/// caracter es ASCII, y un marcador que no es digito si no lo es, de
/// modo que cualquier caracter fuera de ASCII invalida la cifra.
pub open spec fn byte_cifra(c: char) -> u8 {
    if c as u32 <= 127 {
        c as u8
    } else {
        255
    }
}

/// Bytes de una cadena para la lectura de cifras.
pub open spec fn bytes_cifra(s: Seq<char>) -> Seq<u8> {
    s.map(|_i: int, c: char| byte_cifra(c))
}

/// Lo que vale la espera entre descargas: el valor de la variable si es
/// una cifra legible (digitos, con un `+` inicial opcional, dentro del
/// rango de la maquina), y tres segundos si falta o no se entiende.
pub open spec fn espec_espera(var: Option<String>) -> int {
    match var {
        Some(s) => if numero_valido(sin_signo(bytes_cifra(s@))) {
            valor(sin_signo(bytes_cifra(s@)))
        } else {
            3
        },
        None => 3,
    }
}

/// Segundos de espera entre lotes de descargas, leidos de una variable
/// de entorno ya recuperada; tres por defecto.
pub fn espera_descargas(var: Option<String>) -> (r: u64)
    ensures
        r as int == espec_espera(var),
{
    match var {
        None => 3,
        Some(s) => {
            let bytes = bytes_de(&s);
            proof {
                assert(bytes@ =~= bytes_cifra(s@));
            }
            match parsea_con_signo(&bytes) {
                Some(v) => v as u64,
                None => 3,
            }
        },
    }
}

/// Bytes de una cadena para la lectura de cifras: cada caracter ASCII
/// da su byte, y cada caracter fuera de ASCII da el marcador que no es
/// digito, de modo que invalida la cifra, igual que para la maquina.
fn bytes_de(s: &String) -> (r: Vec<u8>)
    ensures
        r@ == bytes_cifra(s@),
{
    let mut fuera: Vec<u8> = Vec::new();
    let mut i: usize = 0;
    let n = s.as_str().unicode_len();
    while i < n
        invariant
            0 <= i <= s@.len(),
            n == s@.len(),
            fuera@.len() == i,
            forall|l: int| 0 <= l < i ==> fuera@[l] == byte_cifra(s@[l]),
        decreases s@.len() - i,
    {
        let c = s.as_str().get_char(i);
        if (c as u32) <= 127 {
            fuera.push(c as u8);
        } else {
            fuera.push(255u8);
        }
        i = i + 1;
    }
    proof {
        assert(fuera@ =~= bytes_cifra(s@));
    }
    fuera
}

} // verus!
