use vstd::prelude::*;

use crate::objeto::IdObjeto;
use crate::objeto::MObjeto;
use crate::objeto::Objeto;
use crate::objeto::aplica;
use crate::objeto::busca_id;
use crate::objeto::mapa_renum;
use crate::objeto::reescribe_dic;
use crate::objeto::reescribe_modelo;
use crate::objeto::reescribe_objeto;
use crate::objeto::vdic;
use crate::objeto::vo;

verus! {

/// Registro de navegacion: titulo, pagina destino y nivel de anidado.
/// El color fijo con que se pinta lo anade el ensamblador del esquema.
pub struct Marcador {
    pub titulo: Vec<u8>,
    pub destino: IdObjeto,
    pub nivel: u32,
}

/// Un documento: tabla de objetos, cola con la raiz, orden de lectura
/// de sus hojas de pagina, marcadores de navegacion y contador maximo.
pub struct Documento {
    pub objetos: Vec<(IdObjeto, Objeto)>,
    pub cola: Vec<(String, Objeto)>,
    pub orden_paginas: Vec<IdObjeto>,
    pub marcadores: Vec<Marcador>,
    pub max_id: u32,
    pub version: String,
}

/// Identificadores de una tabla, en su orden.
pub open spec fn ids_de(t: Seq<(IdObjeto, Objeto)>) -> Seq<IdObjeto> {
    Seq::new(t.len(), |i: int| t[i].0)
}

/// Modelo de una tabla de objetos.
pub open spec fn vtab(t: Seq<(IdObjeto, Objeto)>) -> Seq<(IdObjeto, MObjeto)> {
    Seq::new(t.len(), |i: int| (t[i].0, vo(t[i].1)))
}

/// Primera entrada de la tabla con el identificador dado.
pub open spec fn g_busca_tab(t: Seq<(IdObjeto, MObjeto)>, p: IdObjeto) -> Option<MObjeto>
    decreases t.len(),
{
    if t.len() == 0 {
        None
    } else if t[0].0 == p {
        Some(t[0].1)
    } else {
        g_busca_tab(t.drop_first(), p)
    }
}

pub proof fn lema_busca_tab_en(t: Seq<(IdObjeto, MObjeto)>, p: IdObjeto, j: int)
    requires
        0 <= j < t.len(),
        forall|l: int| 0 <= l < j ==> t[l].0 != p,
        t[j].0 == p,
    ensures
        g_busca_tab(t, p) == Some(t[j].1),
    decreases j,
{
    if j > 0 {
        lema_busca_tab_en(t.drop_first(), p, j - 1);
    }
}

pub proof fn lema_busca_tab_nada(t: Seq<(IdObjeto, MObjeto)>, p: IdObjeto)
    requires
        forall|l: int| 0 <= l < t.len() ==> t[l].0 != p,
    ensures
        g_busca_tab(t, p) is None,
    decreases t.len(),
{
    if t.len() > 0 {
        lema_busca_tab_nada(t.drop_first(), p);
    }
}

/// Busca en la tabla la primera entrada con el identificador dado.
pub fn busca_tabla<'a>(t: &'a Vec<(IdObjeto, Objeto)>, p: IdObjeto) -> (r: Option<&'a Objeto>)
    ensures
        match r {
            Some(o) => g_busca_tab(vtab(t@), p) == Some(vo(*o)),
            None => g_busca_tab(vtab(t@), p) is None,
        },
{
    let mut i: usize = 0;
    while i < t.len()
        invariant
            0 <= i <= t@.len(),
            forall|l: int| 0 <= l < i ==> vtab(t@)[l].0 != p,
        decreases t@.len() - i,
    {
        if t[i].0 == p {
            proof {
                lema_busca_tab_en(vtab(t@), p, i as int);
            }
            return Some(&t[i].1);
        }
        i = i + 1;
    }
    proof {
        lema_busca_tab_nada(vtab(t@), p);
    }
    None
}

/// Copia de un vector de bytes.
pub fn clona_bytes(v: &Vec<u8>) -> (r: Vec<u8>)
    ensures
        r@ == v@,
{
    let mut fuera: Vec<u8> = Vec::new();
    let mut i: usize = 0;
    while i < v.len()
        invariant
            0 <= i <= v@.len(),
            fuera@ == v@.subrange(0, i as int),
        decreases v@.len() - i,
    {
        fuera.push(v[i]);
        i = i + 1;
        proof {
            assert(fuera@ =~= v@.subrange(0, i as int));
        }
    }
    proof {
        assert(fuera@ =~= v@);
    }
    fuera
}

/// Reescritura de las entradas de una cola o diccionario suelto.
pub fn reescribe_entradas_sueltas(
    d: &Vec<(String, Objeto)>,
    ids: &Vec<IdObjeto>,
    inicio: u32,
) -> (r: Vec<(String, Objeto)>)
    requires
        inicio >= 1,
        inicio + ids@.len() <= u32::MAX + 1,
    ensures
        vdic(r@) == reescribe_dic(vdic(d@), mapa_renum(ids@, inicio as int)),
{
    let ghost m = mapa_renum(ids@, inicio as int);
    let mut fuera: Vec<(String, Objeto)> = Vec::new();
    let mut i: usize = 0;
    while i < d.len()
        invariant
            0 <= i <= d@.len(),
            fuera@.len() == i,
            forall|l: int|
                0 <= l < i ==> fuera@[l].0@ == d@[l].0@ && vo(fuera@[l].1) == reescribe_modelo(
                    vo(d@[l].1),
                    m,
                ),
        decreases d@.len() - i,
    {
        let x = reescribe_objeto(&d[i].1, ids, inicio);
        let k = d[i].0.clone();
        fuera.push((k, x));
        i = i + 1;
    }
    proof {
        assert(vdic(fuera@) =~= reescribe_dic(vdic(d@), m));
    }
    fuera
}

/// Renumerador de identificadores (etapa previa de la union).
///
/// Asigna a la entrada en la posicion `j` el identificador
/// `(inicio + j, gen)`, conservando la generacion y el orden relativo,
/// y reescribe toda referencia interna, el orden de paginas, la cola y
/// los destinos de los marcadores a traves del mismo renombrado. Un
/// renombrado puro: ningun contenido cambia fuera de las referencias.
pub fn renumerar(d: &Documento, inicio: u32) -> (r: Documento)
    requires
        inicio >= 1,
        inicio + d.objetos@.len() <= u32::MAX + 1,
    ensures
        r.objetos@.len() == d.objetos@.len(),
        forall|j: int|
            0 <= j < d.objetos@.len() ==> r.objetos@[j].0 == (IdObjeto {
                num: (inicio + j) as u32,
                gen: d.objetos@[j].0.gen,
            }),
        forall|j: int|
            0 <= j < d.objetos@.len() ==> vo(r.objetos@[j].1) == reescribe_modelo(
                vo(d.objetos@[j].1),
                mapa_renum(ids_de(d.objetos@), inicio as int),
            ),
        r.orden_paginas@.len() == d.orden_paginas@.len(),
        forall|k: int|
            0 <= k < d.orden_paginas@.len() ==> r.orden_paginas@[k] == aplica(
                mapa_renum(ids_de(d.objetos@), inicio as int),
                d.orden_paginas@[k],
            ),
        vdic(r.cola@) == reescribe_dic(
            vdic(d.cola@),
            mapa_renum(ids_de(d.objetos@), inicio as int),
        ),
        r.marcadores@.len() == d.marcadores@.len(),
        forall|k: int|
            0 <= k < d.marcadores@.len() ==> r.marcadores@[k].titulo@ == d.marcadores@[k].titulo@
                && r.marcadores@[k].nivel == d.marcadores@[k].nivel && r.marcadores@[k].destino
                == aplica(
                mapa_renum(ids_de(d.objetos@), inicio as int),
                d.marcadores@[k].destino,
            ),
        r.max_id as int == inicio + d.objetos@.len() - 1,
        r.version@ == d.version@,
{
    let ghost m = mapa_renum(ids_de(d.objetos@), inicio as int);

    let mut ids: Vec<IdObjeto> = Vec::new();
    let mut i: usize = 0;
    while i < d.objetos.len()
        invariant
            0 <= i <= d.objetos@.len(),
            ids@ == ids_de(d.objetos@).subrange(0, i as int),
        decreases d.objetos@.len() - i,
    {
        ids.push(d.objetos[i].0);
        i = i + 1;
        proof {
            assert(ids@ =~= ids_de(d.objetos@).subrange(0, i as int));
        }
    }
    proof {
        assert(ids@ =~= ids_de(d.objetos@));
    }

    let mut tabla: Vec<(IdObjeto, Objeto)> = Vec::new();
    let mut j: usize = 0;
    while j < d.objetos.len()
        invariant
            0 <= j <= d.objetos@.len(),
            tabla@.len() == j,
            ids@ == ids_de(d.objetos@),
            forall|l: int|
                0 <= l < j ==> tabla@[l].0 == (IdObjeto {
                    num: (inicio + l) as u32,
                    gen: d.objetos@[l].0.gen,
                }),
            forall|l: int|
                0 <= l < j ==> vo(tabla@[l].1) == reescribe_modelo(vo(d.objetos@[l].1), m),
        decreases d.objetos@.len() - j,
    {
        let nuevo = IdObjeto { num: inicio + (j as u32), gen: d.objetos[j].0.gen };
        let obj = reescribe_objeto(&d.objetos[j].1, &ids, inicio);
        tabla.push((nuevo, obj));
        j = j + 1;
    }

    let mut orden: Vec<IdObjeto> = Vec::new();
    let mut k: usize = 0;
    while k < d.orden_paginas.len()
        invariant
            0 <= k <= d.orden_paginas@.len(),
            orden@.len() == k,
            ids@ == ids_de(d.objetos@),
            forall|l: int| 0 <= l < k ==> orden@[l] == aplica(m, d.orden_paginas@[l]),
        decreases d.orden_paginas@.len() - k,
    {
        orden.push(aplica_renombrado(&ids, inicio, d.orden_paginas[k]));
        k = k + 1;
    }

    let cola = reescribe_entradas_sueltas(&d.cola, &ids, inicio);

    let mut marcas: Vec<Marcador> = Vec::new();
    let mut q: usize = 0;
    while q < d.marcadores.len()
        invariant
            0 <= q <= d.marcadores@.len(),
            marcas@.len() == q,
            ids@ == ids_de(d.objetos@),
            forall|l: int|
                0 <= l < q ==> marcas@[l].titulo@ == d.marcadores@[l].titulo@ && marcas@[l].nivel
                    == d.marcadores@[l].nivel && marcas@[l].destino == aplica(
                    m,
                    d.marcadores@[l].destino,
                ),
        decreases d.marcadores@.len() - q,
    {
        let viejo = &d.marcadores[q];
        marcas.push(
            Marcador {
                titulo: clona_bytes(&viejo.titulo),
                destino: aplica_renombrado(&ids, inicio, viejo.destino),
                nivel: viejo.nivel,
            },
        );
        q = q + 1;
    }

    let tope: u32 = if d.objetos.len() == 0 {
        inicio - 1
    } else {
        inicio + ((d.objetos.len() - 1) as u32)
    };

    Documento {
        objetos: tabla,
        cola,
        orden_paginas: orden,
        marcadores: marcas,
        max_id: tope,
        version: d.version.clone(),
    }
}

/// Destino de un identificador bajo el renombrado de `ids` e `inicio`.
pub fn aplica_renombrado(ids: &Vec<IdObjeto>, inicio: u32, p: IdObjeto) -> (r: IdObjeto)
    requires
        inicio >= 1,
        inicio + ids@.len() <= u32::MAX + 1,
    ensures
        r == aplica(mapa_renum(ids@, inicio as int), p),
{
    match busca_id(ids, p) {
        Some(j) => IdObjeto { num: inicio + (j as u32), gen: p.gen },
        None => p,
    }
}

} // verus!
