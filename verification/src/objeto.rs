use vstd::prelude::*;

verus! {

/// Identificador de un objeto indirecto: par de numero de secuencia y
/// numero de generacion. Dentro de un documento es unico; entre
/// documentos independientes colisiona y debe renumerarse antes de unir.
#[derive(Clone, Copy, PartialEq, Eq, Structural, Debug)]
pub struct IdObjeto {
    pub num: u32,
    pub gen: u16,
}

/// Un valor del grafo de objetos de un documento. Un `Real` lleva su
/// texto decimal: la union nunca calcula con el, solo lo copia.
pub enum Objeto {
    Nulo,
    Booleano(bool),
    Entero(i64),
    Real(String),
    Cadena(Vec<u8>),
    Nombre(String),
    Arreglo(Vec<Objeto>),
    Diccionario(Vec<(String, Objeto)>),
    Flujo(Vec<(String, Objeto)>, Vec<u8>),
    Referencia(IdObjeto),
}

/// Modelo matematico de un `Objeto`: el mismo arbol con sucesiones en
/// lugar de vectores.
#[verifier::ext_equal]
pub enum MObjeto {
    Nulo,
    Booleano(bool),
    Entero(i64),
    Real(Seq<char>),
    Cadena(Seq<u8>),
    Nombre(Seq<char>),
    Arreglo(Seq<MObjeto>),
    Diccionario(Seq<(Seq<char>, MObjeto)>),
    Flujo(Seq<(Seq<char>, MObjeto)>, Seq<u8>),
    Referencia(IdObjeto),
}

/// Modelo de un objeto.
pub open spec fn vo(o: Objeto) -> MObjeto
    decreases o,
{
    match o {
        Objeto::Nulo => MObjeto::Nulo,
        Objeto::Booleano(b) => MObjeto::Booleano(b),
        Objeto::Entero(n) => MObjeto::Entero(n),
        Objeto::Real(r) => MObjeto::Real(r@),
        Objeto::Cadena(c) => MObjeto::Cadena(c@),
        Objeto::Nombre(n) => MObjeto::Nombre(n@),
        Objeto::Arreglo(v) => MObjeto::Arreglo(
            Seq::new(
                v@.len(),
                |i: int|
                    if 0 <= i < v@.len() {
                        proof {
                            assert(decreases_to!(o => o->Arreglo_0));
                            assert(decreases_to!(o->Arreglo_0 => o->Arreglo_0@));
                        }
                        vo(v@[i])
                    } else {
                        MObjeto::Nulo
                    },
            ),
        ),
        Objeto::Diccionario(d) => MObjeto::Diccionario(
            Seq::new(
                d@.len(),
                |i: int|
                    if 0 <= i < d@.len() {
                        proof {
                            assert(decreases_to!(o => o->Diccionario_0));
                            assert(decreases_to!(o->Diccionario_0 => o->Diccionario_0@));
                            assert(decreases_to!(o->Diccionario_0@[i] => o->Diccionario_0@[i].1));
                        }
                        (d@[i].0@, vo(d@[i].1))
                    } else {
                        (Seq::empty(), MObjeto::Nulo)
                    },
            ),
        ),
        Objeto::Flujo(d, c) => MObjeto::Flujo(
            Seq::new(
                d@.len(),
                |i: int|
                    if 0 <= i < d@.len() {
                        proof {
                            assert(decreases_to!(o => o->Flujo_0));
                            assert(decreases_to!(o->Flujo_0 => o->Flujo_0@));
                            assert(decreases_to!(o->Flujo_0@[i] => o->Flujo_0@[i].1));
                        }
                        (d@[i].0@, vo(d@[i].1))
                    } else {
                        (Seq::empty(), MObjeto::Nulo)
                    },
            ),
            c@,
        ),
        Objeto::Referencia(id) => MObjeto::Referencia(id),
    }
}

/// Modelo de las entradas de un diccionario.
pub open spec fn vdic(d: Seq<(String, Objeto)>) -> Seq<(Seq<char>, MObjeto)> {
    Seq::new(d.len(), |i: int| (d[i].0@, vo(d[i].1)))
}

/// Primera entrada del diccionario con la clave dada, si existe.
pub open spec fn g_busca(d: Seq<(Seq<char>, MObjeto)>, k: Seq<char>) -> Option<MObjeto>
    decreases d.len(),
{
    if d.len() == 0 {
        None
    } else if d[0].0 == k {
        Some(d[0].1)
    } else {
        g_busca(d.drop_first(), k)
    }
}

/// Fija la clave `k` al valor `v`: sustituye en sitio la primera
/// aparicion, o anade la entrada al final si la clave no estaba.
pub open spec fn g_pone(
    d: Seq<(Seq<char>, MObjeto)>,
    k: Seq<char>,
    v: MObjeto,
) -> Seq<(Seq<char>, MObjeto)>
    decreases d.len(),
{
    if d.len() == 0 {
        seq![(k, v)]
    } else if d[0].0 == k {
        seq![(k, v)] + d.drop_first()
    } else {
        seq![d[0]] + g_pone(d.drop_first(), k, v)
    }
}

/// Quita todas las entradas con la clave dada.
pub open spec fn g_quita(d: Seq<(Seq<char>, MObjeto)>, k: Seq<char>) -> Seq<(Seq<char>, MObjeto)>
    decreases d.len(),
{
    if d.len() == 0 {
        d
    } else if d[0].0 == k {
        g_quita(d.drop_first(), k)
    } else {
        seq![d[0]] + g_quita(d.drop_first(), k)
    }
}

/// Papel estructural de un objeto, inferido de su campo `Type`.
/// Solo un diccionario tiene papel; cualquier otro valor es `Otra`.
#[derive(Clone, Copy, PartialEq, Eq, Structural, Debug)]
pub enum Clase {
    Catalogo,
    Paginas,
    Pagina,
    Esquema,
    Otra,
}

/// Clase de un objeto del modelo.
pub open spec fn clase_de(g: MObjeto) -> Clase {
    match g {
        MObjeto::Diccionario(d) => match g_busca(d, "Type"@) {
            Some(MObjeto::Nombre(t)) => if t == "Catalog"@ {
                Clase::Catalogo
            } else if t == "Pages"@ {
                Clase::Paginas
            } else if t == "Page"@ {
                Clase::Pagina
            } else if t == "Outlines"@ {
                Clase::Esquema
            } else if t == "Outline"@ {
                Clase::Esquema
            } else {
                Clase::Otra
            },
            _ => Clase::Otra,
        },
        _ => Clase::Otra,
    }
}

/// `g_busca` sobre el prefijo sin la clave y la posicion `j` dan la
/// primera aparicion.
pub proof fn lema_busca_en(d: Seq<(Seq<char>, MObjeto)>, k: Seq<char>, j: int)
    requires
        0 <= j < d.len(),
        forall|l: int| 0 <= l < j ==> d[l].0 != k,
        d[j].0 == k,
    ensures
        g_busca(d, k) == Some(d[j].1),
    decreases j,
{
    if j > 0 {
        lema_busca_en(d.drop_first(), k, j - 1);
    }
}

/// Si ninguna entrada lleva la clave, `g_busca` no da nada.
pub proof fn lema_busca_nada(d: Seq<(Seq<char>, MObjeto)>, k: Seq<char>)
    requires
        forall|l: int| 0 <= l < d.len() ==> d[l].0 != k,
    ensures
        g_busca(d, k) is None,
    decreases d.len(),
{
    if d.len() > 0 {
        lema_busca_nada(d.drop_first(), k);
    }
}

/// Busca la primera entrada con la clave dada.
pub fn busca<'a>(d: &'a Vec<(String, Objeto)>, k: &String) -> (r: Option<&'a Objeto>)
    ensures
        match r {
            Some(o) => g_busca(vdic(d@), k@) == Some(vo(*o)),
            None => g_busca(vdic(d@), k@) is None,
        },
{
    let mut i: usize = 0;
    while i < d.len()
        invariant
            0 <= i <= d@.len(),
            forall|l: int| 0 <= l < i ==> vdic(d@)[l].0 != k@,
        decreases d@.len() - i,
    {
        if d[i].0 == *k {
            proof {
                lema_busca_en(vdic(d@), k@, i as int);
            }
            return Some(&d[i].1);
        }
        i = i + 1;
    }
    proof {
        lema_busca_nada(vdic(d@), k@);
    }
    None
}

/// Con la primera aparicion de la clave en `j`, `g_pone` sustituye esa
/// entrada en sitio.
pub proof fn lema_pone_en(d: Seq<(Seq<char>, MObjeto)>, k: Seq<char>, v: MObjeto, j: int)
    requires
        0 <= j < d.len(),
        forall|l: int| 0 <= l < j ==> d[l].0 != k,
        d[j].0 == k,
    ensures
        g_pone(d, k, v) =~= d.update(j, (k, v)),
    decreases j,
{
    if j > 0 {
        lema_pone_en(d.drop_first(), k, v, j - 1);
    }
}

/// Sin aparicion de la clave, `g_pone` anade la entrada al final.
pub proof fn lema_pone_nada(d: Seq<(Seq<char>, MObjeto)>, k: Seq<char>, v: MObjeto)
    requires
        forall|l: int| 0 <= l < d.len() ==> d[l].0 != k,
    ensures
        g_pone(d, k, v) =~= d.push((k, v)),
    decreases d.len(),
{
    if d.len() > 0 {
        lema_pone_nada(d.drop_first(), k, v);
    }
}

/// Fija la clave al valor: sustituye la primera aparicion o anade la
/// entrada al final.
pub fn pone(d: &mut Vec<(String, Objeto)>, k: &String, v: Objeto)
    ensures
        vdic(final(d)@) == g_pone(vdic(old(d)@), k@, vo(v)),
{
    let ghost d0 = vdic(d@);
    let ghost gv = vo(v);
    let mut i: usize = 0;
    while i < d.len()
        invariant
            0 <= i <= d@.len(),
            vdic(d@) == d0,
            forall|l: int| 0 <= l < i ==> d0[l].0 != k@,
        decreases d@.len() - i,
    {
        if d[i].0 == *k {
            proof {
                lema_pone_en(d0, k@, gv, i as int);
            }
            d.set(i, (k.clone(), v));
            proof {
                assert(vdic(d@) =~= d0.update(i as int, (k@, gv)));
            }
            return ;
        }
        i = i + 1;
    }
    proof {
        lema_pone_nada(d0, k@, gv);
    }
    d.push((k.clone(), v));
    proof {
        assert(vdic(d@) =~= d0.push((k@, gv)));
    }
}

/// `g_quita` distribuye sobre anadir una entrada al final.
pub proof fn lema_quita_anade(d: Seq<(Seq<char>, MObjeto)>, e: (Seq<char>, MObjeto), k: Seq<char>)
    ensures
        g_quita(d.push(e), k) == if e.0 == k {
            g_quita(d, k)
        } else {
            g_quita(d, k).push(e)
        },
    decreases d.len(),
{
    let dp = d.push(e);
    if d.len() == 0 {
        assert(dp.drop_first() =~= d);
        if e.0 == k {
            assert(g_quita(dp, k) == g_quita(d, k));
        } else {
            assert(g_quita(dp, k) =~= g_quita(d, k).push(e));
        }
    } else {
        assert(dp.drop_first() =~= d.drop_first().push(e));
        lema_quita_anade(d.drop_first(), e, k);
        if d[0].0 == k {
        } else {
            if e.0 == k {
            } else {
                assert(seq![d[0]] + g_quita(d.drop_first(), k).push(e) =~= (seq![d[0]] + g_quita(
                    d.drop_first(),
                    k,
                )).push(e));
            }
        }
    }
}

/// Quita todas las entradas con la clave dada.
pub fn quita(d: &Vec<(String, Objeto)>, k: &String) -> (r: Vec<(String, Objeto)>)
    ensures
        vdic(r@) == g_quita(vdic(d@), k@),
{
    let mut fuera: Vec<(String, Objeto)> = Vec::new();
    let mut i: usize = 0;
    proof {
        assert(vdic(fuera@) =~= g_quita(vdic(d@).subrange(0, 0), k@));
    }
    while i < d.len()
        invariant
            0 <= i <= d@.len(),
            vdic(fuera@) == g_quita(vdic(d@).subrange(0, i as int), k@),
        decreases d@.len() - i,
    {
        let ghost pre = vdic(d@).subrange(0, i as int);
        proof {
            assert(vdic(d@).subrange(0, i as int + 1) =~= pre.push(vdic(d@)[i as int]));
            lema_quita_anade(pre, vdic(d@)[i as int], k@);
        }
        if !(d[i].0 == *k) {
            let e = clona_entrada(&d[i]);
            fuera.push(e);
            proof {
                assert(vdic(fuera@) =~= g_quita(pre, k@).push(vdic(d@)[i as int]));
            }
        }
        i = i + 1;
    }
    proof {
        assert(vdic(d@).subrange(0, d@.len() as int) =~= vdic(d@));
    }
    fuera
}

/// Indice de la primera aparicion de un identificador.
pub open spec fn indice_de(ids: Seq<IdObjeto>, p: IdObjeto) -> int
    decreases ids.len(),
{
    if ids.len() == 0 {
        0
    } else if ids[0] == p {
        0
    } else {
        1 + indice_de(ids.drop_first(), p)
    }
}

pub proof fn lema_indice_en(ids: Seq<IdObjeto>, p: IdObjeto, j: int)
    requires
        0 <= j < ids.len(),
        forall|l: int| 0 <= l < j ==> ids[l] != p,
        ids[j] == p,
    ensures
        indice_de(ids, p) == j,
        ids.contains(p),
    decreases j,
{
    if j > 0 {
        lema_indice_en(ids.drop_first(), p, j - 1);
    }
}

/// El renombrado que asigna al identificador en la posicion `j` el
/// nuevo valor `(inicio + j, gen)`, conservando la generacion.
pub open spec fn mapa_renum(ids: Seq<IdObjeto>, inicio: int) -> Map<IdObjeto, IdObjeto> {
    Map::new(
        |p: IdObjeto| ids.contains(p),
        |p: IdObjeto| IdObjeto { num: (inicio + indice_de(ids, p)) as u32, gen: p.gen },
    )
}

/// Destino de un identificador bajo un renombrado: el renombrado si lo
/// cubre, el identificador intacto si no.
pub open spec fn aplica(m: Map<IdObjeto, IdObjeto>, p: IdObjeto) -> IdObjeto {
    if m.dom().contains(p) {
        m[p]
    } else {
        p
    }
}

/// Reescribe cada destino de referencia a traves de `m`; todo lo demas
/// queda intacto.
pub open spec fn reescribe_modelo(g: MObjeto, m: Map<IdObjeto, IdObjeto>) -> MObjeto
    decreases g,
{
    match g {
        MObjeto::Referencia(id) => MObjeto::Referencia(aplica(m, id)),
        MObjeto::Arreglo(s) => MObjeto::Arreglo(
            Seq::new(
                s.len(),
                |i: int|
                    if 0 <= i < s.len() {
                        proof {
                            assert(decreases_to!(g => g->Arreglo_0));
                        }
                        reescribe_modelo(s[i], m)
                    } else {
                        MObjeto::Nulo
                    },
            ),
        ),
        MObjeto::Diccionario(d) => MObjeto::Diccionario(
            Seq::new(
                d.len(),
                |i: int|
                    if 0 <= i < d.len() {
                        proof {
                            assert(decreases_to!(g => g->Diccionario_0));
                            assert(decreases_to!(g->Diccionario_0[i] => g->Diccionario_0[i].1));
                        }
                        (d[i].0, reescribe_modelo(d[i].1, m))
                    } else {
                        (Seq::empty(), MObjeto::Nulo)
                    },
            ),
        ),
        MObjeto::Flujo(d, c) => MObjeto::Flujo(
            Seq::new(
                d.len(),
                |i: int|
                    if 0 <= i < d.len() {
                        proof {
                            assert(decreases_to!(g => g->Flujo_0));
                            assert(decreases_to!(g->Flujo_0[i] => g->Flujo_0[i].1));
                        }
                        (d[i].0, reescribe_modelo(d[i].1, m))
                    } else {
                        (Seq::empty(), MObjeto::Nulo)
                    },
            ),
            c,
        ),
        _ => g,
    }
}

/// Reescritura de cada valor de un diccionario, clave por clave.
pub open spec fn reescribe_dic(
    d: Seq<(Seq<char>, MObjeto)>,
    m: Map<IdObjeto, IdObjeto>,
) -> Seq<(Seq<char>, MObjeto)> {
    Seq::new(d.len(), |i: int| (d[i].0, reescribe_modelo(d[i].1, m)))
}

/// Reescribe los destinos de referencia de un objeto a traves del
/// renombrado `mapa_renum(ids@, inicio)`.
#[verifier::rlimit(50)]
pub fn reescribe_objeto(o: &Objeto, ids: &Vec<IdObjeto>, inicio: u32) -> (r: Objeto)
    requires
        inicio >= 1,
        inicio + ids@.len() <= u32::MAX + 1,
    ensures
        vo(r) == reescribe_modelo(vo(*o), mapa_renum(ids@, inicio as int)),
    decreases *o,
{
    let ghost m = mapa_renum(ids@, inicio as int);
    match o {
        Objeto::Nulo => Objeto::Nulo,
        Objeto::Booleano(b) => Objeto::Booleano(*b),
        Objeto::Entero(n) => Objeto::Entero(*n),
        Objeto::Real(r) => Objeto::Real(r.clone()),
        Objeto::Cadena(c) => Objeto::Cadena(c.clone()),
        Objeto::Nombre(n) => Objeto::Nombre(n.clone()),
        Objeto::Referencia(id) => {
            match busca_id(ids, *id) {
                Some(j) => Objeto::Referencia(IdObjeto { num: inicio + (j as u32), gen: id.gen }),
                None => Objeto::Referencia(*id),
            }
        },
        Objeto::Arreglo(v) => {
            let mut fuera: Vec<Objeto> = Vec::new();
            let mut i: usize = 0;
            while i < v.len()
                invariant
                    0 <= i <= v@.len(),
                    fuera@.len() == i,
                    forall|l: int| 0 <= l < i ==> vo(fuera@[l]) == reescribe_modelo(vo(v@[l]), m),
                decreases v@.len() - i,
            {
                proof {
                    assert(decreases_to!(*o => o->Arreglo_0));
                    assert(decreases_to!(o->Arreglo_0 => o->Arreglo_0@));
                    assert(decreases_to!(v@ => v@[i as int]));
                }
                let x = reescribe_objeto(&v[i], ids, inicio);
                fuera.push(x);
                i = i + 1;
            }
            let r = Objeto::Arreglo(fuera);
            proof {
                assert(vo(r)->Arreglo_0 =~= reescribe_modelo(vo(*o), m)->Arreglo_0);
            }
            r
        },
        Objeto::Diccionario(d) => {
            let fuera = reescribe_entradas(o, d, ids, inicio);
            let r = Objeto::Diccionario(fuera);
            proof {
                assert(vo(*o)->Diccionario_0 =~= vdic(d@));
                assert(vo(r)->Diccionario_0 =~= vdic(fuera@));
                lema_reescribe_dic_entero(vdic(d@), m);
                assert(reescribe_dic(vdic(d@), m) =~= vdic(fuera@));
            }
            r
        },
        Objeto::Flujo(d, c) => {
            let fuera = reescribe_entradas(o, d, ids, inicio);
            let r = Objeto::Flujo(fuera, c.clone());
            proof {
                assert(vo(*o)->Flujo_0 =~= vdic(d@));
                assert(vo(r)->Flujo_0 =~= vdic(fuera@));
                lema_reescribe_flujo_entero(vdic(d@), c@, m);
                assert(reescribe_dic(vdic(d@), m) =~= vdic(fuera@));
            }
            r
        },
    }
}

/// La reescritura de un diccionario es la reescritura de sus entradas.
pub proof fn lema_reescribe_dic_entero(gd: Seq<(Seq<char>, MObjeto)>, m: Map<IdObjeto, IdObjeto>)
    ensures
        reescribe_modelo(MObjeto::Diccionario(gd), m) == MObjeto::Diccionario(
            reescribe_dic(gd, m),
        ),
{
    assert(reescribe_modelo(MObjeto::Diccionario(gd), m)->Diccionario_0 =~= reescribe_dic(gd, m));
}

/// La reescritura de un flujo es la reescritura de sus entradas, con la
/// carga de bytes intacta.
pub proof fn lema_reescribe_flujo_entero(
    gd: Seq<(Seq<char>, MObjeto)>,
    c: Seq<u8>,
    m: Map<IdObjeto, IdObjeto>,
)
    ensures
        reescribe_modelo(MObjeto::Flujo(gd, c), m) == MObjeto::Flujo(reescribe_dic(gd, m), c),
{
    assert(reescribe_modelo(MObjeto::Flujo(gd, c), m)->Flujo_0 =~= reescribe_dic(gd, m));
}

/// Reescritura de las entradas de un diccionario que es campo de `o`.
#[verifier::rlimit(50)]
fn reescribe_entradas(
    o: &Objeto,
    d: &Vec<(String, Objeto)>,
    ids: &Vec<IdObjeto>,
    inicio: u32,
) -> (r: Vec<(String, Objeto)>)
    requires
        inicio >= 1,
        inicio + ids@.len() <= u32::MAX + 1,
        (*o matches Objeto::Diccionario(dd) && dd == *d) || (*o matches Objeto::Flujo(dd, _) && dd
            == *d),
    ensures
        vdic(r@) == reescribe_dic(vdic(d@), mapa_renum(ids@, inicio as int)),
    decreases *o, 0int,
{
    let ghost m = mapa_renum(ids@, inicio as int);
    let mut fuera: Vec<(String, Objeto)> = Vec::new();
    let mut i: usize = 0;
    while i < d.len()
        invariant
            0 <= i <= d@.len(),
            fuera@.len() == i,
            forall|l: int|
                0 <= l < i ==> fuera@[l].0@ == d@[l].0@ && vo(fuera@[l].1) == reescribe_modelo(
                    vo(d@[l].1),
                    m,
                ),
        decreases d@.len() - i,
    {
        proof {
            if *o matches Objeto::Diccionario(_) {
                assert(decreases_to!(*o => o->Diccionario_0));
                assert(decreases_to!(o->Diccionario_0 => o->Diccionario_0@));
                assert(decreases_to!(d@ => d@[i as int]));
                assert(decreases_to!(d@[i as int] => d@[i as int].1));
            } else {
                assert(decreases_to!(*o => o->Flujo_0));
                assert(decreases_to!(o->Flujo_0 => o->Flujo_0@));
                assert(decreases_to!(d@ => d@[i as int]));
                assert(decreases_to!(d@[i as int] => d@[i as int].1));
            }
        }
        let x = reescribe_objeto(&d[i].1, ids, inicio);
        let k = d[i].0.clone();
        fuera.push((k, x));
        i = i + 1;
    }
    proof {
        assert(vdic(fuera@) =~= reescribe_dic(vdic(d@), m));
    }
    fuera
}

/// Posicion de un identificador en la lista, si esta.
pub fn busca_id(ids: &Vec<IdObjeto>, p: IdObjeto) -> (r: Option<usize>)
    ensures
        match r {
            Some(j) => 0 <= j < ids@.len() && ids@[j as int] == p && indice_de(ids@, p) == j
                && ids@.contains(p),
            None => !ids@.contains(p),
        },
{
    let mut i: usize = 0;
    while i < ids.len()
        invariant
            0 <= i <= ids@.len(),
            forall|l: int| 0 <= l < i ==> ids@[l] != p,
        decreases ids@.len() - i,
    {
        if ids[i] == p {
            proof {
                lema_indice_en(ids@, p, i as int);
            }
            return Some(i);
        }
        i = i + 1;
    }
    None
}

/// Un renombrado de dominio vacio no cambia nada.
pub proof fn lema_reescribe_identidad(g: MObjeto, m: Map<IdObjeto, IdObjeto>)
    requires
        m.dom() =~= Set::empty(),
    ensures
        reescribe_modelo(g, m) == g,
    decreases g,
{
    match g {
        MObjeto::Arreglo(s) => {
            assert forall|i: int| 0 <= i < s.len() implies reescribe_modelo(s[i], m) == s[i] by {
                assert(decreases_to!(g => g->Arreglo_0));
                lema_reescribe_identidad(s[i], m);
            }
            assert(reescribe_modelo(g, m)->Arreglo_0 =~= s);
        },
        MObjeto::Diccionario(d) => {
            assert forall|i: int| 0 <= i < d.len() implies reescribe_modelo(d[i].1, m)
                == d[i].1 by {
                assert(decreases_to!(g => g->Diccionario_0));
                assert(decreases_to!(g->Diccionario_0[i] => g->Diccionario_0[i].1));
                lema_reescribe_identidad(d[i].1, m);
            }
            assert(reescribe_modelo(g, m)->Diccionario_0 =~= d);
        },
        MObjeto::Flujo(d, c) => {
            assert forall|i: int| 0 <= i < d.len() implies reescribe_modelo(d[i].1, m)
                == d[i].1 by {
                assert(decreases_to!(g => g->Flujo_0));
                assert(decreases_to!(g->Flujo_0[i] => g->Flujo_0[i].1));
                lema_reescribe_identidad(d[i].1, m);
            }
            assert(reescribe_modelo(g, m)->Flujo_0 =~= d);
        },
        _ => {},
    }
}

/// Copia profunda de un objeto: el mismo valor del modelo.
pub fn clona_objeto(o: &Objeto) -> (r: Objeto)
    ensures
        vo(r) == vo(*o),
{
    let vacio: Vec<IdObjeto> = Vec::new();
    let r = reescribe_objeto(o, &vacio, 1);
    proof {
        assert(mapa_renum(vacio@, 1).dom() =~= Set::empty());
        lema_reescribe_identidad(vo(*o), mapa_renum(vacio@, 1));
    }
    r
}

/// Copia de una entrada de diccionario.
pub fn clona_entrada(e: &(String, Objeto)) -> (r: (String, Objeto))
    ensures
        r.0@ == e.0@,
        vo(r.1) == vo(e.1),
{
    (e.0.clone(), clona_objeto(&e.1))
}

/// Copia de las entradas de un diccionario.
pub fn clona_entradas(d: &Vec<(String, Objeto)>) -> (r: Vec<(String, Objeto)>)
    ensures
        vdic(r@) == vdic(d@),
{
    let mut fuera: Vec<(String, Objeto)> = Vec::new();
    let mut i: usize = 0;
    while i < d.len()
        invariant
            0 <= i <= d@.len(),
            fuera@.len() == i,
            forall|l: int| 0 <= l < i ==> fuera@[l].0@ == d@[l].0@ && vo(fuera@[l].1) == vo(d@[l].1),
        decreases d@.len() - i,
    {
        let e = clona_entrada(&d[i]);
        fuera.push(e);
        i = i + 1;
    }
    proof {
        assert(vdic(fuera@) =~= vdic(d@));
    }
    fuera
}

/// Clase de un objeto, leida de su campo `Type`.
pub fn clase_objeto(o: &Objeto) -> (c: Clase)
    ensures
        c == clase_de(vo(*o)),
{
    proof {
        lema_vo_variante_nombre(*o);
    }
    match o {
        Objeto::Diccionario(d) => {
            proof {
                assert(vo(*o)->Diccionario_0 =~= vdic(d@));
            }
            let tipo = String::from_str("Type");
            match busca(d, &tipo) {
                Some(obj) => {
                    proof {
                        lema_vo_variante_nombre(*obj);
                    }
                    match obj {
                        Objeto::Nombre(t) => {
                            if *t == String::from_str("Catalog") {
                                Clase::Catalogo
                            } else if *t == String::from_str("Pages") {
                                Clase::Paginas
                            } else if *t == String::from_str("Page") {
                                Clase::Pagina
                            } else if *t == String::from_str("Outlines") {
                                Clase::Esquema
                            } else if *t == String::from_str("Outline") {
                                Clase::Esquema
                            } else {
                                Clase::Otra
                            }
                        },
                        _ => Clase::Otra,
                    }
                },
                None => Clase::Otra,
            }
        },
        _ => Clase::Otra,
    }
}

/// El modelo conserva la variante: solo un `Nombre` modela un nombre y
/// solo un `Diccionario` modela un diccionario.
pub proof fn lema_vo_variante_nombre(x: Objeto)
    ensures
        (vo(x) is Nombre) <==> (x matches Objeto::Nombre(_)),
        (vo(x) is Diccionario) <==> (x matches Objeto::Diccionario(_)),
{
    match x {
        Objeto::Nulo => {},
        Objeto::Booleano(_) => {},
        Objeto::Entero(_) => {},
        Objeto::Real(_) => {},
        Objeto::Cadena(_) => {},
        Objeto::Nombre(_) => {},
        Objeto::Arreglo(_) => {},
        Objeto::Diccionario(_) => {},
        Objeto::Flujo(_, _) => {},
        Objeto::Referencia(_) => {},
    }
}

} // verus!
